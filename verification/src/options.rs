//! The command line: what the launcher is to show, and where.

use vstd::prelude::*;
use vstd::string::StringExecFns;
use crate::number::integer_of;
use crate::number::parse_integer;
use crate::split::split_lines;
use crate::split::text_lines;
use crate::text::char_texts;
use crate::text::opt_text;
use crate::text::owned;
use crate::text::same_text;
use crate::text::string_of;
use crate::text::texts;
use crate::text::to_chars;

verus! {

/// What the launcher shows.
#[derive(Clone, Copy, Debug, PartialEq, Eq, Structural)]
pub enum LauncherMode {
    /// The lines of the standard input.
    Dmenu,
    /// The executables on the search path.
    Path,
    /// The applications with a desktop entry.
    Apps,
    /// A layout of widgets that the standard input describes.
    Json,
}

/// The options of the launcher.
#[derive(Debug)]
pub struct Options {
    pub prompt: String,
    pub mode: LauncherMode,
    pub x_pos: Option<i32>,
    pub y_pos: Option<i32>,
    pub select_item: Option<String>,
    pub align_right: bool,
    pub switcher_mode: bool,
    pub parent_app_id: Option<String>,
    /// The modes that were asked for and do not exist.
    pub unknown_modes: Vec<String>,
}

/// The options of the launcher, in a specification.
pub struct OptionsModel {
    pub prompt: Seq<char>,
    pub mode: LauncherMode,
    pub x_pos: Option<i32>,
    pub y_pos: Option<i32>,
    pub select_item: Option<Seq<char>>,
    pub align_right: bool,
    pub switcher_mode: bool,
    pub parent_app_id: Option<Seq<char>>,
    pub unknown_modes: Seq<Seq<char>>,
}

impl View for Options {
    type V = OptionsModel;

    open spec fn view(&self) -> OptionsModel {
        OptionsModel {
            prompt: self.prompt@,
            mode: self.mode,
            x_pos: self.x_pos,
            y_pos: self.y_pos,
            select_item: opt_text(self.select_item),
            align_right: self.align_right,
            switcher_mode: self.switcher_mode,
            parent_app_id: opt_text(self.parent_app_id),
            unknown_modes: texts(self.unknown_modes@),
        }
    }
}

/// The options before any argument was read.
pub open spec fn default_options(mode: LauncherMode) -> OptionsModel {
    OptionsModel {
        prompt: "Search: "@,
        mode,
        x_pos: None,
        y_pos: None,
        select_item: None,
        align_right: false,
        switcher_mode: false,
        parent_app_id: None,
        unknown_modes: Seq::<Seq<char>>::empty(),
    }
}

/// The mode where no argument names one: the lines of the input where there is input, and
/// else the executables.
pub fn default_mode(has_input: bool) -> (r: LauncherMode)
    ensures
        r == if has_input {
            LauncherMode::Dmenu
        } else {
            LauncherMode::Path
        },
{
    if has_input {
        LauncherMode::Dmenu
    } else {
        LauncherMode::Path
    }
}

pub open spec fn is_prompt(a: Seq<char>) -> bool {
    a == "-p"@ || a == "--prompt"@
}

pub open spec fn is_select(a: Seq<char>) -> bool {
    a == "-s"@ || a == "--select"@
}

pub open spec fn is_x(a: Seq<char>) -> bool {
    a == "-x"@ || a == "--x-pos"@
}

pub open spec fn is_y(a: Seq<char>) -> bool {
    a == "-y"@ || a == "--y-pos"@
}

/// Whether an argument takes the next one as its value.
pub open spec fn takes_value(a: Seq<char>) -> bool {
    is_prompt(a) || is_select(a) || is_x(a) || is_y(a) || a == "--parent-app-id"@ || a == "--mode"@
}

/// The mode with a name.
pub open spec fn mode_named(name: Seq<char>) -> Option<LauncherMode> {
    if name == "apps"@ || name == "app"@ {
        Some(LauncherMode::Apps)
    } else if name == "path"@ {
        Some(LauncherMode::Path)
    } else if name == "dmenu"@ {
        Some(LauncherMode::Dmenu)
    } else {
        None
    }
}

/// The options after an argument with a value. A position that is no number and a mode that
/// does not exist change nothing else.
pub open spec fn with_value(o: OptionsModel, a: Seq<char>, v: Seq<char>) -> OptionsModel {
    if is_prompt(a) {
        OptionsModel { prompt: v, ..o }
    } else if is_select(a) {
        OptionsModel { select_item: Some(v), ..o }
    } else if is_x(a) {
        match integer_of(v) {
            Some(n) => OptionsModel { x_pos: Some(n), ..o },
            None => o,
        }
    } else if is_y(a) {
        match integer_of(v) {
            Some(n) => OptionsModel { y_pos: Some(n), ..o },
            None => o,
        }
    } else if a == "--parent-app-id"@ {
        OptionsModel { parent_app_id: Some(v), ..o }
    } else {
        match mode_named(v) {
            Some(m) => OptionsModel { mode: m, ..o },
            None => OptionsModel { unknown_modes: o.unknown_modes.push(v), ..o },
        }
    }
}

/// The options after an argument without a value; one that is not known changes nothing.
pub open spec fn with_flag(o: OptionsModel, a: Seq<char>) -> OptionsModel {
    if a == "--apps"@ || a == "--app"@ {
        OptionsModel { mode: LauncherMode::Apps, ..o }
    } else if a == "--path"@ {
        OptionsModel { mode: LauncherMode::Path, ..o }
    } else if a == "--dmenu"@ {
        OptionsModel { mode: LauncherMode::Dmenu, ..o }
    } else if a == "--json"@ || a == "--layout"@ {
        OptionsModel { mode: LauncherMode::Json, ..o }
    } else if a == "--align-right"@ {
        OptionsModel { align_right: true, ..o }
    } else if a == "--switcher"@ {
        OptionsModel { switcher_mode: true, mode: LauncherMode::Dmenu, ..o }
    } else {
        o
    }
}

/// The options after the arguments from the `i`th on. Of several arguments for one option
/// the last counts; an argument whose value is missing is ignored.
pub open spec fn options_from(args: Seq<Seq<char>>, i: int, o: OptionsModel) -> OptionsModel
    decreases args.len() - i,
{
    if i >= args.len() || i < 0 {
        o
    } else if takes_value(args[i]) {
        if i + 1 < args.len() {
            options_from(args, i + 2, with_value(o, args[i], args[i + 1]))
        } else {
            options_from(args, i + 1, o)
        }
    } else {
        options_from(args, i + 1, with_flag(o, args[i]))
    }
}

/// Whether an argument takes the next one as its value.
pub fn check_takes_value(a: &str) -> (r: bool)
    ensures
        r == takes_value(a@),
{
    same_text(a, "-p") || same_text(a, "--prompt") || same_text(a, "-s") || same_text(a, "--select")
        || same_text(a, "-x") || same_text(a, "--x-pos") || same_text(a, "-y") || same_text(
        a,
        "--y-pos",
    ) || same_text(a, "--parent-app-id") || same_text(a, "--mode")
}

fn find_mode(name: &str) -> (r: Option<LauncherMode>)
    ensures
        r == mode_named(name@),
{
    if same_text(name, "apps") || same_text(name, "app") {
        Some(LauncherMode::Apps)
    } else if same_text(name, "path") {
        Some(LauncherMode::Path)
    } else if same_text(name, "dmenu") {
        Some(LauncherMode::Dmenu)
    } else {
        None
    }
}

fn apply_value(o: &mut Options, a: &str, v: &String)
    requires
        takes_value(a@),
    ensures
        final(o)@ == with_value(old(o)@, a@, v@),
{
    if same_text(a, "-p") || same_text(a, "--prompt") {
        o.prompt = v.clone();
    } else if same_text(a, "-s") || same_text(a, "--select") {
        o.select_item = Some(v.clone());
    } else if same_text(a, "-x") || same_text(a, "--x-pos") {
        let digits = to_chars(v.as_str());
        if let Some(n) = parse_integer(&digits) {
            o.x_pos = Some(n);
        }
    } else if same_text(a, "-y") || same_text(a, "--y-pos") {
        let digits = to_chars(v.as_str());
        if let Some(n) = parse_integer(&digits) {
            o.y_pos = Some(n);
        }
    } else if same_text(a, "--parent-app-id") {
        o.parent_app_id = Some(v.clone());
    } else {
        match find_mode(v.as_str()) {
            Some(m) => {
                o.mode = m;
            },
            None => {
                let ghost before = texts(o.unknown_modes@);
                o.unknown_modes.push(v.clone());
                proof {
                    assert(texts(o.unknown_modes@) =~= before.push(v@));
                }
            },
        }
    }
}

fn apply_flag(o: &mut Options, a: &str)
    ensures
        final(o)@ == with_flag(old(o)@, a@),
{
    if same_text(a, "--apps") || same_text(a, "--app") {
        o.mode = LauncherMode::Apps;
    } else if same_text(a, "--path") {
        o.mode = LauncherMode::Path;
    } else if same_text(a, "--dmenu") {
        o.mode = LauncherMode::Dmenu;
    } else if same_text(a, "--json") || same_text(a, "--layout") {
        o.mode = LauncherMode::Json;
    } else if same_text(a, "--align-right") {
        o.align_right = true;
    } else if same_text(a, "--switcher") {
        o.switcher_mode = true;
        o.mode = LauncherMode::Dmenu;
    }
}

/// Reads the arguments after the name of the program.
pub fn parse_options(args: &Vec<String>, mode: LauncherMode) -> (r: Options)
    ensures
        r@ == options_from(texts(args@), 1, default_options(mode)),
{
    let mut o = Options {
        prompt: owned("Search: "),
        mode,
        x_pos: None,
        y_pos: None,
        select_item: None,
        align_right: false,
        switcher_mode: false,
        parent_app_id: None,
        unknown_modes: Vec::new(),
    };
    let ghost all = texts(args@);
    proof {
        assert(texts(o.unknown_modes@) =~= Seq::<Seq<char>>::empty());
    }
    let mut i: usize = 1;
    while i < args.len()
        invariant
            1 <= i,
            all == texts(args@),
            options_from(all, i as int, o@) == options_from(all, 1, default_options(mode)),
        decreases args@.len() - i,
    {
        proof {
            assert(all[i as int] == args@[i as int]@);
        }
        if check_takes_value(args[i].as_str()) {
            if i < args.len() - 1 {
                proof {
                    assert(all[i + 1] == args@[i + 1]@);
                }
                apply_value(&mut o, args[i].as_str(), &args[i + 1]);
                i += 2;
            } else {
                i += 1;
            }
        } else {
            apply_flag(&mut o, args[i].as_str());
            i += 1;
        }
    }
    o
}

/// Whether no argument from the `i`th on lacks its value.
pub open spec fn complete_from(args: Seq<Seq<char>>, i: int) -> bool
    decreases args.len() - i,
{
    if i >= args.len() || i < 0 {
        i == args.len()
    } else if takes_value(args[i]) {
        i + 1 < args.len() && complete_from(args, i + 2)
    } else {
        complete_from(args, i + 1)
    }
}

proof fn lemma_options_split(args: Seq<Seq<char>>, rest: Seq<Seq<char>>, i: int, o: OptionsModel)
    requires
        0 <= i,
        complete_from(args, i),
    ensures
        options_from(args + rest, i, o) == options_from(
            args + rest,
            args.len() as int,
            options_from(args, i, o),
        ),
    decreases args.len() - i,
{
    if i < args.len() {
        assert((args + rest)[i] == args[i]);
        if takes_value(args[i]) {
            if i + 1 < args.len() {
                assert((args + rest)[i + 1] == args[i + 1]);
                lemma_options_split(args, rest, i + 2, with_value(o, args[i], args[i + 1]));
            }
        } else {
            lemma_options_split(args, rest, i + 1, with_flag(o, args[i]));
        }
    }
}

/// A flag after other arguments is applied to what those ask for.
pub proof fn law_last_flag_counts(args: Seq<Seq<char>>, flag: Seq<char>, o: OptionsModel)
    requires
        complete_from(args, 1),
        !takes_value(flag),
    ensures
        options_from(args.push(flag), 1, o) == with_flag(options_from(args, 1, o), flag),
{
    let rest = seq![flag];
    assert(args.push(flag) =~= args + rest);
    lemma_options_split(args, rest, 1, o);
    assert((args + rest)[args.len() as int] == flag);
    assert(options_from(args + rest, args.len() as int + 1, with_flag(options_from(args, 1, o), flag))
        == with_flag(options_from(args, 1, o), flag));
}

/// An argument with a value after other arguments is applied to what those ask for.
pub proof fn law_last_value_counts(
    args: Seq<Seq<char>>,
    a: Seq<char>,
    v: Seq<char>,
    o: OptionsModel,
)
    requires
        complete_from(args, 1),
        takes_value(a),
    ensures
        options_from(args.push(a).push(v), 1, o) == with_value(options_from(args, 1, o), a, v),
{
    let rest = seq![a, v];
    assert(args.push(a).push(v) =~= args + rest);
    lemma_options_split(args, rest, 1, o);
    assert((args + rest)[args.len() as int] == a);
    assert((args + rest)[args.len() as int + 1] == v);
    assert(options_from(args + rest, args.len() as int + 2, with_value(options_from(args, 1, o), a, v))
        == with_value(options_from(args, 1, o), a, v));
}

/// Whether the arguments ask for the daemon.
pub fn wants_daemon(args: &Vec<String>) -> (r: bool)
    ensures
        r == texts(args@).contains("--daemon"@),
{
    let mut i: usize = 0;
    while i < args.len()
        invariant
            i <= args@.len(),
            forall|k: int| 0 <= k < i ==> (#[trigger] args@[k])@ != "--daemon"@,
        decreases args@.len() - i,
    {
        if same_text(args[i].as_str(), "--daemon") {
            proof {
                assert(texts(args@)[i as int] == "--daemon"@);
            }
            return true;
        }
        i += 1;
    }
    proof {
        if texts(args@).contains("--daemon"@) {
            let k = choose|k: int| 0 <= k < texts(args@).len() && texts(args@)[k] == "--daemon"@;
            assert(args@[k]@ == "--daemon"@);
        }
    }
    false
}

// ---------------------------------------------------------------------------------------
// The client
// ---------------------------------------------------------------------------------------

/// Whether a mode with this name reads the standard input first; `None` where there is no
/// such mode.
pub open spec fn mode_reads(name: Seq<char>) -> Option<bool> {
    if name == "apps"@ || name == "app"@ || name == "path"@ {
        Some(false)
    } else if name == "dmenu"@ || name == "json"@ {
        Some(true)
    } else {
        None
    }
}

/// Whether a flag makes the client read the standard input first; `None` where the flag says
/// nothing of it. The switcher's input stays open, so that there is no end to wait for.
pub open spec fn flag_reads(a: Seq<char>) -> Option<bool> {
    if a == "--apps"@ || a == "--app"@ || a == "--path"@ {
        Some(false)
    } else if a == "--dmenu"@ || a == "--json"@ || a == "--layout"@ {
        Some(true)
    } else if a == "--switcher"@ {
        Some(false)
    } else {
        None
    }
}

/// What the arguments from the `i`th on say of the standard input, after `known`: the last
/// one that says something counts.
pub open spec fn reads_from(args: Seq<Seq<char>>, i: int, known: Option<bool>) -> Option<bool>
    decreases args.len() - i,
{
    if i >= args.len() || i < 0 {
        known
    } else if args[i] == "--mode"@ {
        if i + 1 < args.len() {
            match mode_reads(args[i + 1]) {
                Some(b) => reads_from(args, i + 2, Some(b)),
                None => reads_from(args, i + 2, known),
            }
        } else {
            reads_from(args, i + 1, known)
        }
    } else {
        match flag_reads(args[i]) {
            Some(b) => reads_from(args, i + 1, Some(b)),
            None => reads_from(args, i + 1, known),
        }
    }
}

fn find_mode_reads(name: &str) -> (r: Option<bool>)
    ensures
        r == mode_reads(name@),
{
    if same_text(name, "apps") || same_text(name, "app") || same_text(name, "path") {
        Some(false)
    } else if same_text(name, "dmenu") || same_text(name, "json") {
        Some(true)
    } else {
        None
    }
}

fn find_flag_reads(a: &str) -> (r: Option<bool>)
    ensures
        r == flag_reads(a@),
{
    if same_text(a, "--apps") || same_text(a, "--app") || same_text(a, "--path") {
        Some(false)
    } else if same_text(a, "--dmenu") || same_text(a, "--json") || same_text(a, "--layout") {
        Some(true)
    } else if same_text(a, "--switcher") {
        Some(false)
    } else {
        None
    }
}

/// Whether the client reads its standard input to the end before it asks the daemon: as the
/// arguments say, and where they say nothing, unless the input is a terminal.
pub fn client_needs_stdin(args: &Vec<String>, stdin_is_terminal: bool) -> (r: bool)
    ensures
        r == match reads_from(texts(args@), 1, None) {
            Some(b) => b,
            None => !stdin_is_terminal,
        },
{
    let ghost all = texts(args@);
    let mut known: Option<bool> = None;
    let mut i: usize = 1;
    while i < args.len()
        invariant
            1 <= i,
            all == texts(args@),
            reads_from(all, i as int, known) == reads_from(all, 1, None),
        decreases args@.len() - i,
    {
        proof {
            assert(all[i as int] == args@[i as int]@);
        }
        if same_text(args[i].as_str(), "--mode") {
            if i < args.len() - 1 {
                proof {
                    assert(all[i + 1] == args@[i + 1]@);
                }
                if let Some(b) = find_mode_reads(args[i + 1].as_str()) {
                    known = Some(b);
                }
                i += 2;
            } else {
                i += 1;
            }
        } else {
            if let Some(b) = find_flag_reads(args[i].as_str()) {
                known = Some(b);
            }
            i += 1;
        }
    }
    match known {
        Some(b) => b,
        None => !stdin_is_terminal,
    }
}

// ---------------------------------------------------------------------------------------
// The window
// ---------------------------------------------------------------------------------------

/// Whether the launcher is a popup that the window manager places: where the manager and the
/// shell for it are there and no position was asked for.
pub fn uses_popup(has_manager: bool, has_shell: bool, x_pos: Option<i32>, y_pos: Option<i32>) -> (r:
    bool)
    ensures
        r == (has_manager && has_shell && x_pos is None && y_pos is None),
{
    has_manager && has_shell && x_pos.is_none() && y_pos.is_none()
}

/// Where a layer surface stands.
#[derive(Clone, Copy, Debug, PartialEq, Eq, Structural)]
pub enum Placement {
    /// In the middle of the output.
    Centered,
    /// At a distance from the top and left edges.
    TopLeft { top: i32, left: i32 },
    /// At a distance from the top and right edges.
    TopRight { top: i32, right: i32 },
}

/// Where a layer surface stands for a position; a missing coordinate counts as zero.
pub open spec fn placement_of(x: Option<i32>, y: Option<i32>, align_right: bool) -> Placement {
    let h = match x {
        Some(n) => n,
        None => 0i32,
    };
    let v = match y {
        Some(n) => n,
        None => 0i32,
    };
    if x is None && y is None {
        Placement::Centered
    } else if align_right {
        Placement::TopRight { top: v, right: h }
    } else {
        Placement::TopLeft { top: v, left: h }
    }
}

/// Where a layer surface stands for a position.
pub fn place_surface(x: Option<i32>, y: Option<i32>, align_right: bool) -> (r: Placement)
    ensures
        r == placement_of(x, y, align_right),
{
    if x.is_none() && y.is_none() {
        return Placement::Centered;
    }
    let h: i32 = match x {
        Some(n) => n,
        None => 0,
    };
    let v: i32 = match y {
        Some(n) => n,
        None => 0,
    };
    if align_right {
        Placement::TopRight { top: v, right: h }
    } else {
        Placement::TopLeft { top: v, left: h }
    }
}

/// The application id of the window, which names the parent where there is one.
pub fn window_app_id(parent: &Option<String>) -> (r: String)
    ensures
        r@ == match parent {
            Some(p) => "cce-cloud:"@ + p@,
            None => "cce-cloud"@,
        },
{
    match parent {
        Some(p) => {
            let mut out = owned("cce-cloud:");
            out.append(p.as_str());
            out
        },
        None => owned("cce-cloud"),
    }
}

/// The items with which a session begins: in the mode that shows lines, those of the input
/// that came with the request.
pub fn initial_items(mode: LauncherMode, initial_stdin: &str) -> (r: Vec<String>)
    ensures
        texts(r@) == if mode == LauncherMode::Dmenu {
            text_lines(initial_stdin@)
        } else {
            Seq::<Seq<char>>::empty()
        },
{
    let mut out: Vec<String> = Vec::new();
    if mode == LauncherMode::Dmenu {
        let v = to_chars(initial_stdin);
        let lines = split_lines(&v);
        let mut i: usize = 0;
        while i < lines.len()
            invariant
                i <= lines@.len(),
                texts(out@) =~= char_texts(lines@).take(i as int),
            decreases lines@.len() - i,
        {
            let ghost before = texts(out@);
            let line = string_of(&lines[i]);
            out.push(line);
            i += 1;
            proof {
                assert(texts(out@) =~= before.push(char_texts(lines@)[i - 1]));
            }
        }
        proof {
            assert(texts(out@) =~= char_texts(lines@));
        }
    } else {
        proof {
            assert(texts(out@) =~= Seq::<Seq<char>>::empty());
        }
    }
    out
}

// ---------------------------------------------------------------------------------------
// Laws
// ---------------------------------------------------------------------------------------

proof fn lemma_arguments_differ()
    ensures
        "-p"@.len() == 2 && "-p"@[1] == 'p',
        "-s"@.len() == 2 && "-s"@[1] == 's',
        "-x"@.len() == 2 && "-x"@[1] == 'x',
        "-y"@.len() == 2 && "-y"@[1] == 'y',
        "--prompt"@.len() == 8 && "--prompt"@[2] == 'p',
        "--select"@.len() == 8 && "--select"@[2] == 's',
        "--x-pos"@.len() == 7 && "--x-pos"@[2] == 'x',
        "--y-pos"@.len() == 7 && "--y-pos"@[2] == 'y',
        "--parent-app-id"@.len() == 15 && "--parent-app-id"@[2] == 'p',
        "--mode"@.len() == 6 && "--mode"@[2] == 'm',
        "--apps"@.len() == 6 && "--apps"@[2] == 'a',
        "--app"@.len() == 5 && "--app"@[2] == 'a',
        "--path"@.len() == 6 && "--path"@[2] == 'p',
        "--dmenu"@.len() == 7 && "--dmenu"@[2] == 'd',
        "--json"@.len() == 6 && "--json"@[2] == 'j',
        "--layout"@.len() == 8 && "--layout"@[2] == 'l',
        "--align-right"@.len() == 13 && "--align-right"@[2] == 'a',
        "--switcher"@.len() == 10 && "--switcher"@[2] == 's',
        "apps"@.len() == 4 && "apps"@[0] == 'a',
        "app"@.len() == 3 && "app"@[0] == 'a',
        "path"@.len() == 4 && "path"@[0] == 'p',
        "dmenu"@.len() == 5 && "dmenu"@[0] == 'd',
        "json"@.len() == 4 && "json"@[0] == 'j',
{
    reveal_strlit("-p");
    reveal_strlit("-s");
    reveal_strlit("-x");
    reveal_strlit("-y");
    reveal_strlit("--prompt");
    reveal_strlit("--select");
    reveal_strlit("--x-pos");
    reveal_strlit("--y-pos");
    reveal_strlit("--parent-app-id");
    reveal_strlit("--mode");
    reveal_strlit("--apps");
    reveal_strlit("--app");
    reveal_strlit("--path");
    reveal_strlit("--dmenu");
    reveal_strlit("--json");
    reveal_strlit("--layout");
    reveal_strlit("--align-right");
    reveal_strlit("--switcher");
    reveal_strlit("apps");
    reveal_strlit("app");
    reveal_strlit("path");
    reveal_strlit("dmenu");
    reveal_strlit("json");
}

/// Behind complete arguments each flag sets the mode that it names, whatever was asked for
/// before: `--dmenu` the lines of the input, `--path` the executables, `--apps` and `--app`
/// the applications, `--json` and `--layout` the widgets, and `--switcher` the lines of the
/// input. Only `--align-right` and `--switcher` set anything else.
pub proof fn law_flags_set_modes(args: Seq<Seq<char>>, o: OptionsModel)
    requires
        complete_from(args, 1),
    ensures
        ({
            let before = options_from(args, 1, o);
            &&& options_from(args.push("--dmenu"@), 1, o) == (OptionsModel {
                mode: LauncherMode::Dmenu,
                ..before
            })
            &&& options_from(args.push("--path"@), 1, o) == (OptionsModel {
                mode: LauncherMode::Path,
                ..before
            })
            &&& options_from(args.push("--apps"@), 1, o) == (OptionsModel {
                mode: LauncherMode::Apps,
                ..before
            })
            &&& options_from(args.push("--app"@), 1, o) == (OptionsModel {
                mode: LauncherMode::Apps,
                ..before
            })
            &&& options_from(args.push("--json"@), 1, o) == (OptionsModel {
                mode: LauncherMode::Json,
                ..before
            })
            &&& options_from(args.push("--layout"@), 1, o) == (OptionsModel {
                mode: LauncherMode::Json,
                ..before
            })
            &&& options_from(args.push("--align-right"@), 1, o) == (OptionsModel {
                align_right: true,
                ..before
            })
            &&& options_from(args.push("--switcher"@), 1, o) == (OptionsModel {
                mode: LauncherMode::Dmenu,
                switcher_mode: true,
                ..before
            })
        }),
{
    lemma_arguments_differ();
    law_last_flag_counts(args, "--dmenu"@, o);
    law_last_flag_counts(args, "--path"@, o);
    law_last_flag_counts(args, "--apps"@, o);
    law_last_flag_counts(args, "--app"@, o);
    law_last_flag_counts(args, "--json"@, o);
    law_last_flag_counts(args, "--layout"@, o);
    law_last_flag_counts(args, "--align-right"@, o);
    law_last_flag_counts(args, "--switcher"@, o);
}

/// A flag for a mode asks for the same as `--mode` with the name of the mode.
pub proof fn law_mode_flags_are_modes(args: Seq<Seq<char>>, o: OptionsModel)
    requires
        complete_from(args, 1),
    ensures
        options_from(args.push("--dmenu"@), 1, o) == options_from(
            args.push("--mode"@).push("dmenu"@),
            1,
            o,
        ),
        options_from(args.push("--path"@), 1, o) == options_from(
            args.push("--mode"@).push("path"@),
            1,
            o,
        ),
        options_from(args.push("--apps"@), 1, o) == options_from(
            args.push("--mode"@).push("apps"@),
            1,
            o,
        ),
        options_from(args.push("--app"@), 1, o) == options_from(
            args.push("--mode"@).push("app"@),
            1,
            o,
        ),
{
    lemma_arguments_differ();
    law_flags_set_modes(args, o);
    law_last_value_counts(args, "--mode"@, "dmenu"@, o);
    law_last_value_counts(args, "--mode"@, "path"@, o);
    law_last_value_counts(args, "--mode"@, "apps"@, o);
    law_last_value_counts(args, "--mode"@, "app"@, o);
}

/// Behind complete arguments each option with a value sets what it names to that value, and
/// nothing else. A position that is no number changes nothing, and a mode with another name
/// is noted as unknown.
pub proof fn law_options_set_values(args: Seq<Seq<char>>, v: Seq<char>, o: OptionsModel)
    requires
        complete_from(args, 1),
    ensures
        ({
            let before = options_from(args, 1, o);
            let x = match integer_of(v) {
                Some(n) => Some(n),
                None => before.x_pos,
            };
            let y = match integer_of(v) {
                Some(n) => Some(n),
                None => before.y_pos,
            };
            &&& options_from(args.push("-p"@).push(v), 1, o) == (OptionsModel {
                prompt: v,
                ..before
            })
            &&& options_from(args.push("--prompt"@).push(v), 1, o) == (OptionsModel {
                prompt: v,
                ..before
            })
            &&& options_from(args.push("-s"@).push(v), 1, o) == (OptionsModel {
                select_item: Some(v),
                ..before
            })
            &&& options_from(args.push("--select"@).push(v), 1, o) == (OptionsModel {
                select_item: Some(v),
                ..before
            })
            &&& options_from(args.push("-x"@).push(v), 1, o) == (OptionsModel {
                x_pos: x,
                ..before
            })
            &&& options_from(args.push("--x-pos"@).push(v), 1, o) == (OptionsModel {
                x_pos: x,
                ..before
            })
            &&& options_from(args.push("-y"@).push(v), 1, o) == (OptionsModel {
                y_pos: y,
                ..before
            })
            &&& options_from(args.push("--y-pos"@).push(v), 1, o) == (OptionsModel {
                y_pos: y,
                ..before
            })
            &&& options_from(args.push("--parent-app-id"@).push(v), 1, o) == (OptionsModel {
                parent_app_id: Some(v),
                ..before
            })
            &&& v != "apps"@ && v != "app"@ && v != "path"@ && v != "dmenu"@ ==> options_from(
                args.push("--mode"@).push(v),
                1,
                o,
            ) == (OptionsModel { unknown_modes: before.unknown_modes.push(v), ..before })
        }),
{
    lemma_arguments_differ();
    law_last_value_counts(args, "-p"@, v, o);
    law_last_value_counts(args, "--prompt"@, v, o);
    law_last_value_counts(args, "-s"@, v, o);
    law_last_value_counts(args, "--select"@, v, o);
    law_last_value_counts(args, "-x"@, v, o);
    law_last_value_counts(args, "--x-pos"@, v, o);
    law_last_value_counts(args, "-y"@, v, o);
    law_last_value_counts(args, "--y-pos"@, v, o);
    law_last_value_counts(args, "--parent-app-id"@, v, o);
    law_last_value_counts(args, "--mode"@, v, o);
}

/// An argument that is none of the known ones changes nothing, and an option whose value is
/// missing at the end changes nothing.
pub proof fn law_other_arguments_ignored(args: Seq<Seq<char>>, a: Seq<char>, o: OptionsModel)
    requires
        complete_from(args, 1),
        a != "--apps"@ && a != "--app"@ && a != "--path"@ && a != "--dmenu"@ && a != "--json"@,
        a != "--layout"@ && a != "--align-right"@ && a != "--switcher"@,
    ensures
        options_from(args.push(a), 1, o) == options_from(args, 1, o),
{
    if !takes_value(a) {
        law_last_flag_counts(args, a, o);
    } else {
        let rest = seq![a];
        assert(args.push(a) =~= args + rest);
        lemma_options_split(args, rest, 1, o);
        assert((args + rest)[args.len() as int] == a);
        assert(options_from(args + rest, args.len() as int + 1, options_from(args, 1, o))
            == options_from(args, 1, o));
    }
}

/// Arguments without an option among them that takes a value are complete, and so are complete
/// arguments with an option and its value behind them.
pub proof fn law_complete_arguments(args: Seq<Seq<char>>, a: Seq<char>, v: Seq<char>)
    requires
        args.len() >= 1,
    ensures
        args.len() == 1 ==> complete_from(args, 1),
        complete_from(args, 1) && a != "-p"@ && a != "--prompt"@ && a != "-s"@ && a != "--select"@ && a
            != "-x"@ && a != "--x-pos"@ && a != "-y"@ && a != "--y-pos"@ && a
            != "--parent-app-id"@ && a != "--mode"@ ==> complete_from(args.push(a), 1),
        complete_from(args, 1) && (a == "-p"@ || a == "--prompt"@ || a == "-s"@ || a == "--select"@
            || a == "-x"@ || a == "--x-pos"@ || a == "-y"@ || a == "--y-pos"@ || a
            == "--parent-app-id"@ || a == "--mode"@) ==> complete_from(args.push(a).push(v), 1),
{
    if complete_from(args, 1) {
        if takes_value(a) {
            lemma_complete_split(args, seq![a, v], 1);
            assert(args.push(a).push(v) =~= args + seq![a, v]);
            assert((args + seq![a, v])[args.len() as int] == a);
            assert(complete_from(args + seq![a, v], args.len() as int + 2));
        } else {
            lemma_complete_split(args, seq![a], 1);
            assert(args.push(a) =~= args + seq![a]);
            assert((args + seq![a])[args.len() as int] == a);
            assert(complete_from(args + seq![a], args.len() as int + 1));
        }
    }
}

proof fn lemma_complete_split(args: Seq<Seq<char>>, rest: Seq<Seq<char>>, i: int)
    requires
        0 <= i,
        complete_from(args, i),
    ensures
        complete_from(args + rest, i) == complete_from(args + rest, args.len() as int),
    decreases args.len() - i,
{
    if i < args.len() {
        assert((args + rest)[i] == args[i]);
        if takes_value(args[i]) {
            lemma_complete_split(args, rest, i + 2);
        } else {
            lemma_complete_split(args, rest, i + 1);
        }
    }
}

/// Without arguments the prompt is `Search: `, the mode is the one given, and nothing else is
/// asked for.
pub proof fn law_defaults(args: Seq<Seq<char>>, mode: LauncherMode)
    requires
        args.len() <= 1,
    ensures
        options_from(args, 1, default_options(mode)) == (OptionsModel {
            prompt: "Search: "@,
            mode,
            x_pos: None,
            y_pos: None,
            select_item: None,
            align_right: false,
            switcher_mode: false,
            parent_app_id: None,
            unknown_modes: Seq::<Seq<char>>::empty(),
        }),
{
}

/// Whether no `--mode` from the `i`th argument on lacks its name.
pub open spec fn modes_complete_from(args: Seq<Seq<char>>, i: int) -> bool
    decreases args.len() - i,
{
    if i >= args.len() || i < 0 {
        i == args.len()
    } else if args[i] == "--mode"@ {
        i + 1 < args.len() && modes_complete_from(args, i + 2)
    } else {
        modes_complete_from(args, i + 1)
    }
}

proof fn lemma_reads_split(
    args: Seq<Seq<char>>,
    rest: Seq<Seq<char>>,
    i: int,
    known: Option<bool>,
)
    requires
        0 <= i,
        modes_complete_from(args, i),
    ensures
        reads_from(args + rest, i, known) == reads_from(
            args + rest,
            args.len() as int,
            reads_from(args, i, known),
        ),
    decreases args.len() - i,
{
    if i < args.len() {
        assert((args + rest)[i] == args[i]);
        if args[i] == "--mode"@ {
            if i + 1 < args.len() {
                assert((args + rest)[i + 1] == args[i + 1]);
                match mode_reads(args[i + 1]) {
                    Some(b) => lemma_reads_split(args, rest, i + 2, Some(b)),
                    None => lemma_reads_split(args, rest, i + 2, known),
                }
            }
        } else {
            match flag_reads(args[i]) {
                Some(b) => lemma_reads_split(args, rest, i + 1, Some(b)),
                None => lemma_reads_split(args, rest, i + 1, known),
            }
        }
    }
}

proof fn lemma_flag_reads_last(args: Seq<Seq<char>>, a: Seq<char>, known: Option<bool>)
    requires
        modes_complete_from(args, 1),
        a != "--mode"@,
    ensures
        reads_from(args.push(a), 1, known) == match flag_reads(a) {
            Some(b) => Some(b),
            None => reads_from(args, 1, known),
        },
{
    let all = args + seq![a];
    let n = args.len() as int;
    assert(args.push(a) =~= all);
    lemma_reads_split(args, seq![a], 1, known);
    assert(all[n] == a);
    let k = reads_from(args, 1, known);
    assert(reads_from(all, n + 1, k) == k);
    match flag_reads(a) {
        Some(b) => assert(reads_from(all, n + 1, Some(b)) == Some(b)),
        None => {},
    }
}

proof fn lemma_mode_reads_last(args: Seq<Seq<char>>, name: Seq<char>, known: Option<bool>)
    requires
        modes_complete_from(args, 1),
    ensures
        reads_from(args.push("--mode"@).push(name), 1, known) == match mode_reads(name) {
            Some(b) => Some(b),
            None => reads_from(args, 1, known),
        },
{
    let rest = seq!["--mode"@, name];
    let all = args + rest;
    let n = args.len() as int;
    assert(args.push("--mode"@).push(name) =~= all);
    lemma_reads_split(args, rest, 1, known);
    assert(all[n] == "--mode"@ && all[n + 1] == name);
    let k = reads_from(args, 1, known);
    assert(reads_from(all, n + 2, k) == k);
    match mode_reads(name) {
        Some(b) => assert(reads_from(all, n + 2, Some(b)) == Some(b)),
        None => {},
    }
}

/// Behind other arguments, the flags and names of the modes that show input have the client
/// read it, those of the applications, the executables and the switcher have it not read,
/// and every other argument says nothing of it.
pub proof fn law_client_reads_for_input_modes(
    args: Seq<Seq<char>>,
    other: Seq<char>,
    known: Option<bool>,
)
    requires
        modes_complete_from(args, 1),
    ensures
        reads_from(args.push("--dmenu"@), 1, known) == Some(true),
        reads_from(args.push("--json"@), 1, known) == Some(true),
        reads_from(args.push("--layout"@), 1, known) == Some(true),
        reads_from(args.push("--apps"@), 1, known) == Some(false),
        reads_from(args.push("--app"@), 1, known) == Some(false),
        reads_from(args.push("--path"@), 1, known) == Some(false),
        reads_from(args.push("--switcher"@), 1, known) == Some(false),
        reads_from(args.push("--mode"@).push("dmenu"@), 1, known) == Some(true),
        reads_from(args.push("--mode"@).push("json"@), 1, known) == Some(true),
        reads_from(args.push("--mode"@).push("apps"@), 1, known) == Some(false),
        reads_from(args.push("--mode"@).push("app"@), 1, known) == Some(false),
        reads_from(args.push("--mode"@).push("path"@), 1, known) == Some(false),
        other != "--dmenu"@ && other != "--json"@ && other != "--layout"@ && other != "--apps"@
            && other != "--app"@ && other != "--path"@ && other != "--switcher"@ && other
            != "--mode"@ ==> reads_from(args.push(other), 1, known) == reads_from(args, 1, known),
        other != "dmenu"@ && other != "json"@ && other != "apps"@ && other != "app"@ && other
            != "path"@ ==> reads_from(args.push("--mode"@).push(other), 1, known) == reads_from(
            args,
            1,
            known,
        ),
{
    lemma_arguments_differ();
    lemma_flag_reads_last(args, "--dmenu"@, known);
    lemma_flag_reads_last(args, "--json"@, known);
    lemma_flag_reads_last(args, "--layout"@, known);
    lemma_flag_reads_last(args, "--apps"@, known);
    lemma_flag_reads_last(args, "--app"@, known);
    lemma_flag_reads_last(args, "--path"@, known);
    lemma_flag_reads_last(args, "--switcher"@, known);
    lemma_mode_reads_last(args, "dmenu"@, known);
    lemma_mode_reads_last(args, "json"@, known);
    lemma_mode_reads_last(args, "apps"@, known);
    lemma_mode_reads_last(args, "app"@, known);
    lemma_mode_reads_last(args, "path"@, known);
    if other != "--mode"@ {
        lemma_flag_reads_last(args, other, known);
    }
    lemma_mode_reads_last(args, other, known);
}

/// A surface without a position stands in the middle; else a coordinate is the distance from
/// the top and from the left edge, or from the right edge where that is asked for, and one
/// that is missing is zero.
pub proof fn law_surface_placed(x: i32, y: i32)
    ensures
        placement_of(None, None, true) == Placement::Centered,
        placement_of(None, None, false) == Placement::Centered,
        placement_of(Some(x), Some(y), false) == (Placement::TopLeft { top: y, left: x }),
        placement_of(Some(x), Some(y), true) == (Placement::TopRight { top: y, right: x }),
        placement_of(Some(x), None, false) == (Placement::TopLeft { top: 0, left: x }),
        placement_of(None, Some(y), false) == (Placement::TopLeft { top: y, left: 0 }),
        placement_of(Some(x), None, true) == (Placement::TopRight { top: 0, right: x }),
        placement_of(None, Some(y), true) == (Placement::TopRight { top: y, right: 0 }),
{
}

} // verus!

//! The launcher: what keys, presses and input do to the list, what is chosen, and when the
//! launcher closes.

use vstd::prelude::*;
use crate::desktop::AppInfo;
use crate::filter::lower_all;
use crate::filter::lowered_all;
use crate::filter::ranked;
use crate::fuzzel::cycled;
use crate::fuzzel::empty_list;
use crate::fuzzel::law_items_shown_if_matching;
use crate::fuzzel::law_plain_text_is_printable;
use crate::fuzzel::law_row_under_pointer;
use crate::fuzzel::law_selecting_a_row;
use crate::fuzzel::law_steps_move_by_difference;
use crate::fuzzel::printable;
use crate::fuzzel::row_at;
use crate::fuzzel::FuzzelModel;
use crate::fuzzel::FuzzelWidget;
use crate::geometry::PX;
use crate::keys::key_char;
use crate::keys::key_for;
use crate::keys::keysym_char;
use crate::keys::resolve_key;
use crate::keys::Key;
use crate::keys::KeyModel;
use crate::keys::NavKeys;
use crate::keys::SYM_ISO_LEFT_TAB;
use crate::options::LauncherMode;
use crate::stdin_state::after_look;
use crate::stdin_state::handed_from;
use crate::stdin_state::handed_to;
use crate::stdin_state::StdinModel;
use crate::stdin_state::StdinState;
use crate::text::control_code;
use crate::text::copy_strings;
use crate::text::lowercase;
use crate::text::opt_text;
use crate::text::same_strings;
use crate::text::same_text;
use crate::text::texts;
use crate::text::to_lowercase;

verus! {

/// The launcher.
#[derive(Debug)]
pub struct Launcher {
    pub mode: LauncherMode,
    pub apps: Vec<AppInfo>,
    pub fuzzel: FuzzelWidget,
    /// The item to select as soon as it is there.
    pub select_item: Option<String>,
    pub switcher_mode: bool,
    pub select_and_close_requested: bool,
    pub exit: bool,
    pub redraw: bool,
    pub ctrl_pressed: bool,
    pub super_pressed: bool,
    /// Whether the launcher fades out, after which it closes.
    pub fade_out: bool,
    /// What was selected.
    pub selected_item: Option<String>,
}

/// The launcher, in a specification.
#[verifier::ext_equal]
pub struct LauncherModel {
    pub mode: LauncherMode,
    pub apps: Seq<AppInfo>,
    pub fuzzel: FuzzelModel,
    pub select_item: Option<Seq<char>>,
    pub switcher_mode: bool,
    pub select_and_close_requested: bool,
    pub exit: bool,
    pub redraw: bool,
    pub ctrl_pressed: bool,
    pub super_pressed: bool,
    pub fade_out: bool,
    pub selected_item: Option<Seq<char>>,
}

impl View for Launcher {
    type V = LauncherModel;

    open spec fn view(&self) -> LauncherModel {
        LauncherModel {
            mode: self.mode,
            apps: self.apps@,
            fuzzel: self.fuzzel@,
            select_item: opt_text(self.select_item),
            switcher_mode: self.switcher_mode,
            select_and_close_requested: self.select_and_close_requested,
            exit: self.exit,
            redraw: self.redraw,
            ctrl_pressed: self.ctrl_pressed,
            super_pressed: self.super_pressed,
            fade_out: self.fade_out,
            selected_item: opt_text(self.selected_item),
        }
    }
}

/// What is to be run for a choice.
#[derive(Debug)]
pub enum Launch {
    /// Nothing.
    Nothing,
    /// The command of an application, whose launch is to be recorded.
    App { name: String, command: String },
    /// A command.
    Command(String),
}

/// What is to be run for a choice, in a specification.
pub enum LaunchModel {
    Nothing,
    App { name: Seq<char>, command: Seq<char> },
    Command(Seq<char>),
}

impl View for Launch {
    type V = LaunchModel;

    open spec fn view(&self) -> LaunchModel {
        match self {
            Launch::Nothing => LaunchModel::Nothing,
            Launch::App { name, command } => LaunchModel::App { name: name@, command: command@ },
            Launch::Command(c) => LaunchModel::Command(c@),
        }
    }
}

/// An item that was chosen: it is printed, and something may be run for it.
#[derive(Debug)]
pub struct Choice {
    pub item: String,
    pub launch: Launch,
}

/// A choice, in a specification.
pub struct ChoiceModel {
    pub item: Seq<char>,
    pub launch: LaunchModel,
}

impl View for Choice {
    type V = ChoiceModel;

    open spec fn view(&self) -> ChoiceModel {
        ChoiceModel { item: self.item@, launch: self.launch@ }
    }
}

/// The model of an optional choice.
pub open spec fn opt_choice(c: Option<Choice>) -> Option<ChoiceModel> {
    match c {
        Some(c) => Some(c@),
        None => None,
    }
}

/// The first application with a name.
pub open spec fn app_named(apps: Seq<AppInfo>, name: Seq<char>) -> Option<AppInfo>
    decreases apps.len(),
{
    if apps.len() == 0 {
        None
    } else if apps[0].name@ == name {
        Some(apps[0])
    } else {
        app_named(apps.drop_first(), name)
    }
}

/// What is run for an item: in the list of applications the application with its name, in
/// the list of executables the item itself, and else nothing.
pub open spec fn launch_for(mode: LauncherMode, apps: Seq<AppInfo>, item: Seq<char>) -> LaunchModel {
    match mode {
        LauncherMode::Apps => match app_named(apps, item) {
            Some(a) => LaunchModel::App { name: a.name@, command: a.command@ },
            None => LaunchModel::Nothing,
        },
        LauncherMode::Path => LaunchModel::Command(item),
        LauncherMode::Dmenu => LaunchModel::Nothing,
        LauncherMode::Json => LaunchModel::Nothing,
    }
}

/// What is run for an item.
pub fn find_launch(mode: LauncherMode, apps: &Vec<AppInfo>, item: &String) -> (r: Launch)
    ensures
        r@ == launch_for(mode, apps@, item@),
{
    match mode {
        LauncherMode::Apps => {
            let mut i: usize = 0;
            proof {
                assert(apps@.skip(0) =~= apps@);
            }
            while i < apps.len()
                invariant
                    i <= apps@.len(),
                    mode == LauncherMode::Apps,
                    app_named(apps@.skip(i as int), item@) == app_named(apps@, item@),
                decreases apps@.len() - i,
            {
                proof {
                    assert(apps@.skip(i as int)[0] == apps@[i as int]);
                    assert(apps@.skip(i as int).drop_first() =~= apps@.skip(i + 1));
                }
                if same_text(apps[i].name.as_str(), item.as_str()) {
                    return Launch::App {
                        name: apps[i].name.clone(),
                        command: apps[i].command.clone(),
                    };
                }
                i += 1;
            }
            Launch::Nothing
        },
        LauncherMode::Path => Launch::Command(item.clone()),
        LauncherMode::Dmenu => Launch::Nothing,
        LauncherMode::Json => Launch::Nothing,
    }
}

/// The first place of a text in a list.
pub open spec fn first_place(v: Seq<Seq<char>>, t: Seq<char>) -> Option<int>
    decreases v.len(),
{
    if v.len() == 0 {
        None
    } else {
        match first_place(v.drop_last(), t) {
            Some(i) => Some(i),
            None => if v.last() == t {
                Some(v.len() - 1)
            } else {
                None
            },
        }
    }
}

/// A text that is in a list is found there, at the first place at which it stands.
pub proof fn law_first_place_found(v: Seq<Seq<char>>, t: Seq<char>)
    ensures
        first_place(v, t) is Some == v.contains(t),
        first_place(v, t) matches Some(i) ==> 0 <= i < v.len() && v[i] == t && forall|k: int|
            0 <= k < i ==> v[k] != t,
    decreases v.len(),
{
    if v.len() > 0 {
        let before = v.drop_last();
        law_first_place_found(before, t);
        assert forall|k: int| 0 <= k < before.len() implies before[k] == v[k] by {}
        if v.contains(t) {
            let k = choose|k: int| 0 <= k < v.len() && v[k] == t;
            if k < v.len() - 1 {
                assert(before[k] == t);
            }
        }
        if before.contains(t) {
            let k = choose|k: int| 0 <= k < before.len() && before[k] == t;
            assert(v[k] == t);
        } else {
            assert forall|k: int| 0 <= k < before.len() implies v[k] != t by {
                assert(before[k] == v[k]);
            }
        }
    }
}

/// The first place of a text in a list.
pub fn find_place(v: &Vec<String>, t: &str) -> (r: Option<usize>)
    ensures
        (match r {
            Some(i) => Some(i as int),
            None => None,
        }) == first_place(texts(v@), t@),
        r matches Some(i) ==> i < v@.len(),
{
    let ghost all = texts(v@);
    let mut found: Option<usize> = None;
    let mut i: usize = 0;
    proof {
        assert(all.take(0) =~= Seq::<Seq<char>>::empty());
    }
    while i < v.len()
        invariant
            i <= v@.len(),
            all == texts(v@),
            (match found {
                Some(i) => Some(i as int),
                None => None,
            }) == first_place(all.take(i as int), t@),
            found matches Some(k) ==> k < v@.len(),
        decreases v@.len() - i,
    {
        proof {
            assert(all.take(i + 1).drop_last() =~= all.take(i as int));
            assert(all.take(i + 1).last() == v@[i as int]@);
        }
        if found.is_none() && same_text(v[i].as_str(), t) {
            found = Some(i);
        }
        i += 1;
    }
    proof {
        assert(all.take(i as int) =~= all);
    }
    found
}

impl LauncherModel {
    /// The launcher after it was told to close: it begins to fade out, unless it does so
    /// already.
    pub open spec fn closing(self) -> LauncherModel {
        if self.fade_out {
            self
        } else {
            LauncherModel { fade_out: true, redraw: true, ..self }
        }
    }

    /// What the selected item is chosen for, if there is one.
    pub open spec fn choice(self) -> Option<ChoiceModel> {
        match self.fuzzel.selected_item() {
            Some(item) => Some(
                ChoiceModel { item, launch: launch_for(self.mode, self.apps, item) },
            ),
            None => None,
        }
    }

    /// The launcher after the selected item was chosen, if there is one.
    pub open spec fn chosen(self) -> LauncherModel {
        match self.fuzzel.selected_item() {
            Some(item) => LauncherModel { selected_item: Some(item), ..self }.closing(),
            None => self,
        }
    }

    /// The launcher with another state of the list, to be drawn again.
    pub open spec fn showing(self, fuzzel: FuzzelModel) -> LauncherModel {
        LauncherModel { fuzzel, redraw: true, ..self }
    }

    /// The launcher after the key that cycles backwards.
    pub open spec fn after_back_tab(self) -> LauncherModel {
        if self.mode != LauncherMode::Json && self.fuzzel.filtered_items.len() > 0 {
            self.showing(self.fuzzel.selecting(cycled(self.fuzzel, 0, 1)))
        } else {
            self
        }
    }

    /// The launcher after a key in one of the modes that show a list; `text` is what the key
    /// types.
    pub open spec fn after_key(self, key: KeyModel, text: Option<Seq<char>>) -> LauncherModel {
        let f = self.fuzzel;
        match key {
            KeyModel::Escape => LauncherModel { redraw: true, ..self }.closing(),
            KeyModel::Enter => LauncherModel { redraw: true, ..self.chosen() },
            KeyModel::Tab => if f.filtered_items.len() > 0 {
                self.showing(f.selecting(cycled(f, 1, 0)))
            } else {
                LauncherModel { redraw: true, ..self }
            },
            KeyModel::ArrowDown => if f.filtered_items.len() > 0 {
                self.showing(
                    f.selecting(
                        if f.selected + 1 < f.filtered_items.len() {
                            f.selected + 1
                        } else {
                            f.filtered_items.len() - 1
                        },
                    ),
                )
            } else {
                LauncherModel { redraw: true, ..self }
            },
            KeyModel::ArrowUp => if f.selected > 0 {
                self.showing(f.selecting(f.selected - 1))
            } else {
                LauncherModel { redraw: true, ..self }
            },
            KeyModel::Backspace => self.showing(
                f.with_query(
                    if f.query.len() == 0 {
                        f.query
                    } else {
                        f.query.drop_last()
                    },
                ),
            ),
            _ => match text {
                Some(t) => self.showing(f.with_query(f.query + printable(t))),
                None => self,
            },
        }
    }

    /// The launcher after a key in the mode that shows widgets, of which one may have
    /// handled the key.
    pub open spec fn after_widget_key(self, key: KeyModel, handled: bool) -> LauncherModel {
        if handled {
            LauncherModel { redraw: true, ..self }
        } else if key is Escape {
            LauncherModel { redraw: true, ..self }.closing()
        } else {
            self
        }
    }

    /// The launcher after a change of the modifier keys. In the switcher, releasing the
    /// super key takes the selected item.
    pub open spec fn after_modifiers(self, ctrl: bool, logo: bool) -> LauncherModel {
        let now = LauncherModel { ctrl_pressed: ctrl, super_pressed: logo, ..self };
        if self.switcher_mode && self.super_pressed && !logo {
            now.chosen()
        } else {
            now
        }
    }

    /// Whether a press on a row takes the item there: always in the switcher and for lines
    /// of input, and else where the row was selected before.
    pub open spec fn press_takes(self, row: int) -> bool {
        row == self.fuzzel.selected || self.switcher_mode || self.mode == LauncherMode::Dmenu
    }

    /// The launcher with the row at a height selected by a press.
    pub open spec fn pressed_on(self, py: int) -> LauncherModel {
        LauncherModel {
            fuzzel: FuzzelModel { selected: row_at(self.fuzzel, py), ..self.fuzzel },
            ..self
        }
    }

    /// The launcher after a press that hit a row.
    pub open spec fn after_row_press(self, py: int) -> LauncherModel {
        let now = self.pressed_on(py);
        LauncherModel {
            redraw: true,
            ..if self.press_takes(row_at(self.fuzzel, py)) {
                now.chosen()
            } else {
                now
            }
        }
    }

    /// The list after new items: the item to select first is selected if it is shown; where
    /// none is asked for, the switcher selects the second.
    #[verifier::opaque]
    pub open spec fn with_new_items(self, items: Seq<Seq<char>>) -> LauncherModel {
        let f = self.fuzzel.with_items(items);
        match self.select_item {
            Some(name) => match first_place(
                lowered_all(f.filtered_items),
                lowercase(name),
            ) {
                Some(i) => LauncherModel { fuzzel: f.selecting(i), select_item: None, ..self },
                None => LauncherModel { fuzzel: f, ..self },
            },
            None => if self.switcher_mode && f.filtered_items.len() > 1 {
                LauncherModel { fuzzel: f.selecting(1), ..self }
            } else {
                LauncherModel { fuzzel: f, ..self }
            },
        }
    }

    /// The launcher after it has taken over the items of the input, if they are new.
    pub open spec fn with_input_items(self, s: StdinModel) -> LauncherModel {
        let noted = LauncherModel {
            select_and_close_requested: self.select_and_close_requested || s.select_and_close,
            ..self
        };
        if self.fuzzel.all_items != s.items {
            noted.with_new_items(s.items)
        } else {
            noted
        }
    }

    /// Whether the input asks for steps, and there are rows to step over.
    pub open spec fn input_steps(self, s: StdinModel) -> bool {
        (s.cycle_next > 0 || s.cycle_prev > 0)
            && self.with_input_items(s).fuzzel.filtered_items.len() > 0
    }

    /// The launcher after a look at the input.
    pub open spec fn after_input(self, s: StdinModel) -> LauncherModel {
        let now = self.with_input_items(s);
        if !s.new_data {
            self
        } else if self.input_steps(s) {
            LauncherModel {
                fuzzel: now.fuzzel.selecting(cycled(now.fuzzel, s.cycle_next, s.cycle_prev)),
                ..now
            }
        } else {
            now
        }
    }

    /// The launcher after it has looked at the input and drawn the conclusions: what has
    /// changed is drawn, and a request to take the selected item is met.
    pub open spec fn after_signal(self, s: StdinModel) -> LauncherModel {
        let looked = self.after_input(s);
        let noted = if self.input_changes(s) {
            LauncherModel { redraw: true, ..looked }
        } else {
            looked
        };
        if noted.select_and_close_requested {
            LauncherModel { select_and_close_requested: false, ..noted }.chosen()
        } else {
            noted
        }
    }

    /// What is chosen because the input asks for it.
    pub open spec fn signal_choice(self, s: StdinModel) -> Option<ChoiceModel> {
        if self.after_input(s).select_and_close_requested {
            self.after_input(s).choice()
        } else {
            None
        }
    }

    /// Whether a look at the input changes what is shown.
    pub open spec fn input_changes(self, s: StdinModel) -> bool {
        s.new_data && (self.fuzzel.all_items != s.items || self.input_steps(s))
    }
}

/// What is to be done about a key.
#[derive(Debug)]
pub enum KeyStep {
    /// Nothing.
    Ignored,
    /// The list has gone back a row.
    Back,
    /// The controls of the page are to be asked about it.
    AskControls(Key),
    /// The list has taken it.
    Taken(KeyOutcome),
}

/// What a key stands for in this launcher. `typed` is the character of its symbol, `text`
/// what it types.
pub open spec fn meaning(
    m: LauncherModel,
    sym: u32,
    typed: Option<char>,
    text: Option<Seq<char>>,
    nav: NavKeys,
) -> Option<KeyModel> {
    key_for(sym, typed, text, m.ctrl_pressed, nav)
}

impl LauncherModel {
    /// The launcher after a key has gone down or up. Only going down counts; and what the
    /// controls of a page make of a key is another matter.
    pub open spec fn after_sym(
        self,
        down: bool,
        sym: u32,
        typed: Option<char>,
        text: Option<Seq<char>>,
        nav: NavKeys,
    ) -> LauncherModel {
        if !down {
            self
        } else if sym == SYM_ISO_LEFT_TAB {
            self.after_back_tab()
        } else {
            match meaning(self, sym, typed, text, nav) {
                Some(key) => if self.mode == LauncherMode::Json {
                    self
                } else {
                    self.after_key(key, text)
                },
                None => self,
            }
        }
    }
}

/// Whether a step is what is to be done about a key.
pub open spec fn step_fits(
    step: KeyStep,
    m: LauncherModel,
    down: bool,
    sym: u32,
    typed: Option<char>,
    text: Option<Seq<char>>,
    nav: NavKeys,
) -> bool {
    if !down {
        step is Ignored
    } else if sym == SYM_ISO_LEFT_TAB {
        step is Back
    } else {
        match meaning(m, sym, typed, text, nav) {
            Some(key) => if m.mode == LauncherMode::Json {
                step matches KeyStep::AskControls(k) && k@ == key
            } else {
                &&& step matches KeyStep::Taken(out)
                &&& opt_choice(out.choice) == if key is Enter {
                    m.choice()
                } else {
                    None
                }
                &&& out.resize == resizes(key, text)
            },
            None => step is Ignored,
        }
    }
}

/// Whether a key changes the query, so that the size of the launcher is to be adapted.
pub open spec fn resizes(key: KeyModel, text: Option<Seq<char>>) -> bool {
    match key {
        KeyModel::Escape => false,
        KeyModel::Enter => false,
        KeyModel::Tab => false,
        KeyModel::ArrowDown => false,
        KeyModel::ArrowUp => false,
        KeyModel::Backspace => true,
        _ => text is Some,
    }
}

/// What a key leads to, beside the new state.
#[derive(Debug)]
pub struct KeyOutcome {
    /// The item that was chosen.
    pub choice: Option<Choice>,
    /// Whether the size of the launcher is to be adapted.
    pub resize: bool,
}

impl Launcher {
    /// The parts are well-formed.
    pub open spec fn wf(&self) -> bool {
        self.fuzzel.wf()
    }

    /// A launcher that shows nothing yet.
    pub fn new() -> (r: Launcher)
        ensures
            r.wf(),
            r@ == (LauncherModel {
                mode: LauncherMode::Path,
                apps: Seq::empty(),
                fuzzel: empty_list(Seq::empty()),
                select_item: None,
                switcher_mode: false,
                select_and_close_requested: false,
                exit: false,
                redraw: false,
                ctrl_pressed: false,
                super_pressed: false,
                fade_out: false,
                selected_item: None,
            }),
    {
        let r = Launcher {
            mode: LauncherMode::Path,
            apps: Vec::new(),
            fuzzel: FuzzelWidget::new(String::new()),
            select_item: None,
            switcher_mode: false,
            select_and_close_requested: false,
            exit: false,
            redraw: false,
            ctrl_pressed: false,
            super_pressed: false,
            fade_out: false,
            selected_item: None,
        };
        proof {
            assert(r@.apps =~= Seq::<AppInfo>::empty());
            assert(r@.fuzzel.prompt =~= Seq::<char>::empty());
        }
        r
    }

    /// Begins a session. What was drawn last and whether the control key is down carries
    /// over from the session before.
    pub fn begin(
        &mut self,
        mode: LauncherMode,
        prompt: String,
        apps: Vec<AppInfo>,
        select_item: Option<String>,
        switcher_mode: bool,
    )
        ensures
            final(self).wf(),
            final(self)@ == (LauncherModel {
                mode,
                apps: apps@,
                fuzzel: empty_list(prompt@),
                select_item: opt_text(select_item),
                switcher_mode,
                select_and_close_requested: false,
                exit: false,
                redraw: old(self)@.redraw,
                ctrl_pressed: old(self)@.ctrl_pressed,
                super_pressed: switcher_mode,
                fade_out: false,
                selected_item: None,
            }),
    {
        self.mode = mode;
        self.apps = apps;
        self.fuzzel = FuzzelWidget::new(prompt);
        self.select_item = select_item;
        self.switcher_mode = switcher_mode;
        self.select_and_close_requested = false;
        self.exit = false;
        self.super_pressed = switcher_mode;
        self.fade_out = false;
        self.selected_item = None;
    }

    /// Begins to fade out. Says whether this is the beginning.
    pub fn trigger_close(&mut self) -> (r: bool)
        ensures
            final(self)@ == old(self)@.closing(),
            final(self).fuzzel == old(self).fuzzel,
            r == !old(self).fade_out,
    {
        if !self.fade_out {
            self.fade_out = true;
            self.redraw = true;
            true
        } else {
            false
        }
    }

    /// Takes the selected item, if there is one, and begins to close.
    pub fn trigger_select_and_close(&mut self) -> (r: Option<Choice>)
        requires
            old(self).wf(),
        ensures
            final(self).wf(),
            final(self)@ == old(self)@.chosen(),
            opt_choice(r) == old(self)@.choice(),
    {
        if self.fuzzel.selected < self.fuzzel.filtered_items.len() {
            let item = self.fuzzel.filtered_items[self.fuzzel.selected].clone();
            let launch = find_launch(self.mode, &self.apps, &item);
            self.selected_item = Some(item.clone());
            self.trigger_close();
            Some(Choice { item, launch })
        } else {
            None
        }
    }

    /// Takes the selected item where the input has asked for it.
    pub fn take_requested(&mut self) -> (r: Option<Choice>)
        requires
            old(self).wf(),
        ensures
            final(self).wf(),
            final(self)@ == if old(self)@.select_and_close_requested {
                LauncherModel { select_and_close_requested: false, ..old(self)@ }.chosen()
            } else {
                old(self)@
            },
            opt_choice(r) == if old(self)@.select_and_close_requested {
                old(self)@.choice()
            } else {
                None
            },
    {
        if self.select_and_close_requested {
            self.select_and_close_requested = false;
            self.trigger_select_and_close()
        } else {
            None
        }
    }

    /// Takes an answer that is no item of the list, and begins to close.
    pub fn answer(&mut self, text: String)
        ensures
            final(self)@ == (LauncherModel { selected_item: Some(text@), ..old(self)@ }).closing(),
            final(self).fuzzel == old(self).fuzzel,
    {
        self.selected_item = Some(text);
        self.trigger_close();
    }

    /// A key in one of the modes that show a list; `text` is what the key types.
    pub fn press_key(&mut self, key: &Key, text: &Option<String>) -> (r: KeyOutcome)
        requires
            old(self).wf(),
        ensures
            final(self).wf(),
            final(self)@ == old(self)@.after_key(key@, opt_text(*text)),
            opt_choice(r.choice) == if key@ is Enter {
                old(self)@.choice()
            } else {
                None
            },
            r.resize == resizes(key@, opt_text(*text)),
    {
        let mut out = KeyOutcome { choice: None, resize: false };
        match key {
            Key::Escape => {
                self.redraw = true;
                self.trigger_close();
            },
            Key::Enter => {
                out.choice = self.trigger_select_and_close();
                self.redraw = true;
            },
            Key::Tab => {
                if self.fuzzel.filtered_items.len() > 0 {
                    self.fuzzel.cycle(1, 0);
                }
                self.redraw = true;
            },
            Key::ArrowDown => {
                if self.fuzzel.filtered_items.len() > 0 {
                    self.fuzzel.select_next();
                }
                self.redraw = true;
            },
            Key::ArrowUp => {
                if self.fuzzel.selected > 0 {
                    self.fuzzel.select_prev();
                }
                self.redraw = true;
            },
            Key::Backspace => {
                self.fuzzel.erase();
                out.resize = true;
                self.redraw = true;
            },
            _ => {
                if let Some(t) = text {
                    self.fuzzel.type_text(t.as_str());
                    out.resize = true;
                    self.redraw = true;
                }
            },
        }
        out
    }

    /// The key that cycles backwards.
    pub fn press_back_tab(&mut self)
        requires
            old(self).wf(),
        ensures
            final(self).wf(),
            final(self)@ == old(self)@.after_back_tab(),
    {
        if self.mode != LauncherMode::Json && self.fuzzel.filtered_items.len() > 0 {
            self.fuzzel.cycle(0, 1);
            self.redraw = true;
        }
    }

    /// A key in the mode that shows widgets, of which one may have handled the key.
    pub fn press_widget_key(&mut self, key: &Key, handled: bool)
        ensures
            final(self)@ == old(self)@.after_widget_key(key@, handled),
            final(self).fuzzel == old(self).fuzzel,
    {
        if handled {
            self.redraw = true;
        } else if let Key::Escape = key {
            self.redraw = true;
            self.trigger_close();
        }
    }

    /// A key that has gone down or up. `typed` is the character of its symbol, `text` what it
    /// types.
    pub fn take_key(
        &mut self,
        down: bool,
        sym: u32,
        typed: Option<char>,
        text: &Option<String>,
        nav: NavKeys,
    ) -> (r: KeyStep)
        requires
            old(self).wf(),
        ensures
            final(self).wf(),
            final(self)@ == old(self)@.after_sym(down, sym, typed, opt_text(*text), nav),
            step_fits(r, old(self)@, down, sym, typed, opt_text(*text), nav),
    {
        if !down {
            return KeyStep::Ignored;
        }
        if sym == SYM_ISO_LEFT_TAB {
            self.press_back_tab();
            return KeyStep::Back;
        }
        match resolve_key(sym, typed, text, self.ctrl_pressed, nav) {
            Some(key) => {
                if self.mode == LauncherMode::Json {
                    KeyStep::AskControls(key)
                } else {
                    KeyStep::Taken(self.press_key(&key, text))
                }
            },
            None => KeyStep::Ignored,
        }
    }

    /// A key that has gone down or up, from its symbol and the text that it types.
    pub fn handle_key(&mut self, down: bool, sym: u32, text: &Option<String>, nav: NavKeys) -> (r:
        KeyStep)
        requires
            old(self).wf(),
        ensures
            final(self).wf(),
            final(self)@ == old(self)@.after_sym(
                down,
                sym,
                keysym_char(sym),
                opt_text(*text),
                nav,
            ),
            step_fits(r, old(self)@, down, sym, keysym_char(sym), opt_text(*text), nav),
    {
        let typed = key_char(sym);
        self.take_key(down, sym, typed, text, nav)
    }

    /// A change of the modifier keys.
    pub fn update_modifiers(&mut self, ctrl: bool, logo: bool) -> (r: Option<Choice>)
        requires
            old(self).wf(),
        ensures
            final(self).wf(),
            final(self)@ == old(self)@.after_modifiers(ctrl, logo),
            opt_choice(r) == if old(self).switcher_mode && old(self).super_pressed && !logo {
                old(self)@.choice()
            } else {
                None
            },
    {
        let prev_super = self.super_pressed;
        self.ctrl_pressed = ctrl;
        self.super_pressed = logo;
        if self.switcher_mode && prev_super && !logo {
            self.trigger_select_and_close()
        } else {
            None
        }
    }

    /// A press of the left button in one of the modes that show a list. `hit` says whether
    /// it hit the list. Says whether it hit a row.
    pub fn press_list(&mut self, hit: bool, py: i64) -> (r: (bool, Option<Choice>))
        requires
            old(self).wf(),
        ensures
            final(self).wf(),
            r.0 == (hit && row_at(old(self)@.fuzzel, py as int)
                < old(self)@.fuzzel.filtered_items.len()),
            final(self)@ == if r.0 {
                old(self)@.after_row_press(py as int)
            } else {
                old(self)@
            },
            opt_choice(r.1) == if r.0 && old(self)@.press_takes(
                row_at(old(self)@.fuzzel, py as int),
            ) {
                old(self)@.pressed_on(py as int).choice()
            } else {
                None
            },
    {
        let prev = self.fuzzel.selected;
        let changed = self.fuzzel.press(hit, py);
        if !changed {
            return (false, None);
        }
        let mut choice: Option<Choice> = None;
        if self.fuzzel.selected == prev || self.switcher_mode || self.mode == LauncherMode::Dmenu {
            choice = self.trigger_select_and_close();
        }
        self.redraw = true;
        (true, choice)
    }

    fn take_items(&mut self, items: Vec<String>)
        requires
            old(self).wf(),
        ensures
            final(self).wf(),
            final(self)@ == old(self)@.with_new_items(texts(items@)),
    {
        proof {
            reveal(LauncherModel::with_new_items);
        }
        self.fuzzel.set_items(items);
        let name = crate::text::copy_opt(&self.select_item);
        match name {
            Some(name) => {
                let wanted = to_lowercase(name.as_str());
                let lows = lower_all(&self.fuzzel.filtered_items);
                proof {
                    assert(texts(lows@).len() == lows@.len());
                    assert(texts(self.fuzzel.filtered_items@).len()
                        == self.fuzzel.filtered_items@.len());
                }
                if let Some(i) = find_place(&lows, wanted.as_str()) {
                    self.fuzzel.select(i);
                    self.select_item = None;
                }
            },
            None => {
                if self.switcher_mode && self.fuzzel.filtered_items.len() > 1 {
                    self.fuzzel.select(1);
                }
            },
        }
    }

    fn take_input_items(&mut self, items: &Vec<String>) -> (r: bool)
        requires
            old(self).wf(),
        ensures
            final(self).wf(),
            r == (old(self)@.fuzzel.all_items != texts(items@)),
            final(self)@ == if r {
                old(self)@.with_new_items(texts(items@))
            } else {
                old(self)@
            },
    {
        if !same_strings(&self.fuzzel.all_items, items) {
            let copy = copy_strings(items);
            self.take_items(copy);
            true
        } else {
            false
        }
    }

    fn take_input_steps(&mut self, next: usize, prev: usize) -> (r: bool)
        requires
            old(self).wf(),
        ensures
            final(self).wf(),
            r == ((next > 0 || prev > 0) && old(self)@.fuzzel.filtered_items.len() > 0),
            final(self)@ == if r {
                LauncherModel {
                    fuzzel: old(self)@.fuzzel.selecting(
                        cycled(old(self)@.fuzzel, next as int, prev as int),
                    ),
                    ..old(self)@
                }
            } else {
                old(self)@
            },
    {
        proof {
            assert(texts(self.fuzzel.filtered_items@).len() == self.fuzzel.filtered_items@.len());
        }
        if (next > 0 || prev > 0) && self.fuzzel.filtered_items.len() > 0 {
            self.fuzzel.cycle(next, prev);
            true
        } else {
            false
        }
    }

    proof fn lemma_after_input(
        before: LauncherModel,
        input: StdinModel,
        between: LauncherModel,
        after: LauncherModel,
        stepped: bool,
    )
        requires
            input.new_data,
            between == before.with_input_items(input),
            stepped == ((input.cycle_next > 0 || input.cycle_prev > 0)
                && between.fuzzel.filtered_items.len() > 0),
            after == if stepped {
                LauncherModel {
                    fuzzel: between.fuzzel.selecting(
                        cycled(between.fuzzel, input.cycle_next, input.cycle_prev),
                    ),
                    ..between
                }
            } else {
                between
            },
        ensures
            after == before.after_input(input),
            (before.fuzzel.all_items != input.items || stepped) == before.input_changes(input),
    {
    }

    /// Looks at the input. Says whether what is shown has changed.
    #[verifier::rlimit(40)]
    pub fn check_stdin_updates(&mut self, stdin: &mut StdinState) -> (r: bool)
        requires
            old(self).wf(),
        ensures
            final(self).wf(),
            final(self)@ == old(self)@.after_input(old(stdin)@),
            final(stdin)@ == if old(stdin).new_data {
                after_look(old(stdin)@)
            } else {
                old(stdin)@
            },
            r == old(self)@.input_changes(old(stdin)@),
    {
        if !stdin.new_data {
            return false;
        }
        let ghost before = self@;
        let ghost input = stdin@;
        let next = stdin.cycle_next;
        let prev = stdin.cycle_prev;
        if stdin.select_and_close {
            self.select_and_close_requested = true;
        }
        let replaced = self.take_input_items(&stdin.items);
        let ghost between = self@;
        proof {
            assert(between == before.with_input_items(input));
        }
        let stepped = self.take_input_steps(next, prev);
        proof {
            Self::lemma_after_input(before, input, between, self@, stepped);
        }
        stdin.new_data = false;
        stdin.select_and_close = false;
        stdin.cycle_next = 0;
        stdin.cycle_prev = 0;
        replaced || stepped
    }

    /// Looks at the input and does what it asks for. Says whether what is shown has changed,
    /// and what was chosen.
    pub fn take_input(&mut self, stdin: &mut StdinState) -> (r: (bool, Option<Choice>))
        requires
            old(self).wf(),
        ensures
            final(self).wf(),
            final(self)@ == old(self)@.after_signal(old(stdin)@),
            final(stdin)@ == if old(stdin).new_data {
                after_look(old(stdin)@)
            } else {
                old(stdin)@
            },
            r.0 == old(self)@.input_changes(old(stdin)@),
            opt_choice(r.1) == old(self)@.signal_choice(old(stdin)@),
    {
        let changed = self.check_stdin_updates(stdin);
        if changed {
            self.redraw = true;
        }
        let choice = self.take_requested();
        (changed, choice)
    }

    /// The same for what a client sends: `client` is what the client has sent, of which the
    /// launcher has its own copy in `own`. When the client has hung up, the session ends.
    pub fn take_client_input(&mut self, client: &mut StdinState, own: &mut StdinState) -> (r: (
        bool,
        Option<Choice>,
    ))
        requires
            old(self).wf(),
            old(client).cycle_next + old(own).cycle_next <= usize::MAX,
            old(client).cycle_prev + old(own).cycle_prev <= usize::MAX,
        ensures
            final(self).wf(),
            ({
                let handed = handed_to(old(client)@, old(own)@);
                if old(client).client_gone {
                    &&& final(self)@ == (LauncherModel { exit: true, ..old(self)@ })
                    &&& *final(client) == *old(client)
                    &&& *final(own) == *old(own)
                    &&& !r.0
                    &&& r.1 is None
                } else {
                    &&& final(self)@ == old(self)@.after_signal(handed)
                    &&& final(client)@ == handed_from(old(client)@)
                    &&& final(own)@ == if handed.new_data {
                        after_look(handed)
                    } else {
                        handed
                    }
                    &&& r.0 == old(self)@.input_changes(handed)
                    &&& opt_choice(r.1) == old(self)@.signal_choice(handed)
                }
            }),
    {
        if client.client_gone {
            self.exit = true;
            return (false, None);
        }
        client.transfer(own);
        self.take_input(own)
    }

    /// A frame while the launcher fades out, `elapsed_ns` nanoseconds after it began: it
    /// ends after 150 milliseconds.
    pub fn advance_fade(&mut self, elapsed_ns: u64)
        ensures
            final(self)@ == if !old(self).fade_out {
                old(self)@
            } else if elapsed_ns >= FADE_NS {
                LauncherModel { exit: true, ..old(self)@ }
            } else {
                LauncherModel { redraw: true, ..old(self)@ }
            },
            final(self).fuzzel == old(self).fuzzel,
    {
        if self.fade_out {
            if elapsed_ns >= FADE_NS {
                self.exit = true;
            } else {
                self.redraw = true;
            }
        }
    }
}

/// The number of the left button of the pointer, the only one that the launcher heeds.
pub const LEFT_BUTTON: u32 = 272;

/// How long the launcher fades out, in nanoseconds.
pub const FADE_NS: u64 = 150_000_000;

/// How much of the fading is left, in nanoseconds.
pub fn fade_left(elapsed_ns: u64) -> (r: u64)
    ensures
        r == if elapsed_ns >= FADE_NS {
            0
        } else {
            FADE_NS - elapsed_ns
        },
{
    if elapsed_ns >= FADE_NS {
        0
    } else {
        FADE_NS - elapsed_ns
    }
}

/// How long to wait for events, in milliseconds: not at all where there is something to
/// draw.
pub fn frame_timeout_ms(redraw: bool) -> (r: u64)
    ensures
        r == if redraw {
            0u64
        } else {
            16u64
        },
{
    if redraw {
        0
    } else {
        16
    }
}

/// What follows the events of a frame.
#[derive(Clone, Copy, Debug, PartialEq, Eq, Structural)]
pub enum FrameStep {
    /// The session ends.
    End,
    /// Another client takes the place of this one: there is one popup at a time.
    Yield,
    /// The frame is drawn.
    Draw,
}

/// What follows the events of a frame. The end comes first; then another client that waits.
pub fn frame_step(exit: bool, client_waits: bool) -> (r: FrameStep)
    ensures
        r == if exit {
            FrameStep::End
        } else if client_waits {
            FrameStep::Yield
        } else {
            FrameStep::Draw
        },
{
    if exit {
        FrameStep::End
    } else if client_waits {
        FrameStep::Yield
    } else {
        FrameStep::Draw
    }
}

/// Telling the launcher to close twice is telling it once.
pub proof fn law_closing_twice(m: LauncherModel)
    ensures
        m.closing().closing() == m.closing(),
        m.closing().fade_out,
{
}

/// An application that is run is one of the list, and has the name that was chosen.
pub proof fn law_launch_is_listed(apps: Seq<AppInfo>, item: Seq<char>)
    ensures
        app_named(apps, item) matches Some(a) ==> a.name@ == item && apps.contains(a),
        app_named(apps, item) is None ==> forall|i: int|
            0 <= i < apps.len() ==> (#[trigger] apps[i]).name@ != item,
    decreases apps.len(),
{
    if apps.len() > 0 {
        let rest = apps.drop_first();
        law_launch_is_listed(rest, item);
        if apps[0].name@ != item {
            if let Some(a) = app_named(rest, item) {
                let k = choose|k: int| 0 <= k < rest.len() && rest[k] == a;
                assert(apps[k + 1] == a);
            } else {
                assert forall|i: int| 0 <= i < apps.len() implies (#[trigger] apps[i]).name@
                    != item by {
                    if i > 0 {
                        assert(rest[i - 1] == apps[i]);
                    }
                }
            }
        } else {
            assert(apps[0] == apps.first());
        }
    }
}

/// Lines of input and pages of controls never run anything.
pub proof fn law_only_launchers_launch(apps: Seq<AppInfo>, item: Seq<char>)
    ensures
        launch_for(LauncherMode::Dmenu, apps, item) is Nothing,
        launch_for(LauncherMode::Json, apps, item) is Nothing,
{
}

/// Whatever key is pressed, the selection points at a shown item afterwards, or nowhere where
/// none is shown.
pub proof fn law_keys_keep_selection_valid(m: LauncherModel, key: KeyModel, text: Option<Seq<char>>)
    requires
        m.fuzzel.selection_valid(),
    ensures
        m.after_key(key, text).fuzzel.selection_valid(),
        m.after_back_tab().fuzzel.selection_valid(),
{
    if m.fuzzel.filtered_items.len() > 0 {
        let n = m.fuzzel.filtered_items.len() as int;
        vstd::arithmetic::div_mod::lemma_mod_bound(m.fuzzel.selected + 1, n);
        vstd::arithmetic::div_mod::lemma_mod_bound(m.fuzzel.selected - 1, n);
    }
}

/// A key that cycles back undoes a key that cycles forward, as far as the selection goes.
pub proof fn law_back_tab_undoes_tab(m: LauncherModel)
    requires
        m.mode != LauncherMode::Json,
        m.fuzzel.selection_valid(),
        m.fuzzel.filtered_items.len() > 0,
    ensures
        m.after_key(KeyModel::Tab, None).after_back_tab().fuzzel.selected == m.fuzzel.selected,
{
    crate::fuzzel::law_cycle_back_undoes_forward(m.fuzzel);
}

/// Input that was looked at changes nothing when it is looked at again.
pub proof fn law_input_used_once(m: LauncherModel, s: StdinModel)
    ensures
        m.after_input(after_look(s)) == m,
        !m.input_changes(after_look(s)),
{
}

/// What is answered to the client after a choice is the item that was chosen.
pub proof fn law_choice_is_answered(m: LauncherModel)
    ensures
        m.choice() matches Some(c) ==> m.chosen().selected_item == Some(c.item)
            && m.chosen().fade_out && m.fuzzel.filtered_items.contains(c.item),
        m.choice() is None ==> m.chosen() == m,
{
}

/// A key that is none of those that move the selection, take it, shorten the query or close
/// the launcher enters its text at the end of the query, the space bar too, and the list
/// shows what matches the longer query.
pub proof fn law_typed_text_enters_query(m: LauncherModel, key: KeyModel, t: Seq<char>)
    requires
        !(key is Escape || key is Enter || key is Tab || key is ArrowDown || key is ArrowUp
            || key is Backspace),
        forall|i: int| 0 <= i < t.len() ==> !control_code(#[trigger] t[i]),
    ensures
        m.after_key(key, Some(t)).fuzzel.query == m.fuzzel.query + t,
        m.after_key(key, Some(t)).fuzzel.all_items == m.fuzzel.all_items,
        m.after_key(key, Some(t)).fuzzel.filtered_items == ranked(
            m.fuzzel.all_items,
            m.fuzzel.query + t,
        ),
        m.after_key(key, Some(t)).redraw,
        m.after_key(key, Some(t)).selected_item == m.selected_item,
        m.after_key(key, Some(t)).fade_out == m.fade_out,
        m.after_key(key, None) == m,
{
    law_plain_text_is_printable(t);
}

/// The backspace key takes the last character off the query, and the list shows what matches
/// the shorter query. It undoes the typing of a character.
pub proof fn law_backspace_takes_last_character(m: LauncherModel, c: char)
    requires
        !control_code(c),
    ensures
        ({
            let q = m.fuzzel.query;
            let after = m.after_key(KeyModel::Backspace, None);
            &&& q.len() > 0 ==> after.fuzzel.query.push(q.last()) == q
            &&& q.len() == 0 ==> after.fuzzel.query.len() == 0
            &&& after.fuzzel.filtered_items == ranked(m.fuzzel.all_items, after.fuzzel.query)
            &&& after.fuzzel.all_items == m.fuzzel.all_items
            &&& after.redraw && after.fade_out == m.fade_out && after.selected_item
                == m.selected_item
        }),
        m.after_key(KeyModel::Character(seq![c]), Some(seq![c])).after_key(
            KeyModel::Backspace,
            None,
        ).fuzzel.query == m.fuzzel.query,
{
    let q = m.fuzzel.query;
    if q.len() > 0 {
        assert(q.drop_last().push(q.last()) =~= q);
    }
    law_plain_text_is_printable(seq![c]);
    assert((q + seq![c]).drop_last() =~= q);
}

/// The arrows move the selection by one row and stop at the ends; the tabulator key and its
/// counterpart move it around the ends. None of them changes what is shown.
pub proof fn law_keys_move_selection(m: LauncherModel, text: Option<Seq<char>>)
    requires
        m.mode != LauncherMode::Json,
        0 <= m.fuzzel.selected < m.fuzzel.filtered_items.len(),
    ensures
        ({
            let s = m.fuzzel.selected;
            let n = m.fuzzel.filtered_items.len();
            let down = m.after_key(KeyModel::ArrowDown, text);
            let up = m.after_key(KeyModel::ArrowUp, text);
            let tab = m.after_key(KeyModel::Tab, text);
            let back = m.after_back_tab();
            &&& down.fuzzel.selected == if s + 1 < n {
                s + 1
            } else {
                s
            }
            &&& up.fuzzel.selected == if s > 0 {
                s - 1
            } else {
                s
            }
            &&& tab.fuzzel.selected == if s + 1 < n {
                s + 1
            } else {
                0
            }
            &&& back.fuzzel.selected == if s > 0 {
                s - 1
            } else {
                n - 1
            }
            &&& down.fuzzel.filtered_items == m.fuzzel.filtered_items
            &&& up.fuzzel.filtered_items == m.fuzzel.filtered_items
            &&& tab.fuzzel.filtered_items == m.fuzzel.filtered_items
            &&& back.fuzzel.filtered_items == m.fuzzel.filtered_items
            &&& down.fuzzel.query == m.fuzzel.query && up.fuzzel.query == m.fuzzel.query
            &&& tab.fuzzel.query == m.fuzzel.query && back.fuzzel.query == m.fuzzel.query
            &&& down.redraw && up.redraw && tab.redraw && back.redraw
            &&& down.selected_item == m.selected_item && up.selected_item == m.selected_item
            &&& tab.selected_item == m.selected_item && back.selected_item == m.selected_item
            &&& down.fade_out == m.fade_out && up.fade_out == m.fade_out
            &&& tab.fade_out == m.fade_out && back.fade_out == m.fade_out
        }),
{
    let s = m.fuzzel.selected;
    let n = m.fuzzel.filtered_items.len() as int;
    law_selecting_a_row(m.fuzzel, s);
    let a = law_steps_move_by_difference(m.fuzzel, 1, 0);
    let b = law_steps_move_by_difference(m.fuzzel, 0, 1);
    let x = cycled(m.fuzzel, 1, 0);
    let y = cycled(m.fuzzel, 0, 1);
    assert(s + 1 < n ==> x == s + 1) by (nonlinear_arith)
        requires
            0 <= x < n,
            0 <= s < n,
            s + 1 == x + a * n,
    ;
    assert(s + 1 == n ==> x == 0) by (nonlinear_arith)
        requires
            0 <= x < n,
            0 <= s < n,
            s + 1 == x + a * n,
    ;
    assert(s > 0 ==> y == s - 1) by (nonlinear_arith)
        requires
            0 <= y < n,
            0 <= s < n,
            s - 1 == y + b * n,
    ;
    assert(s == 0 ==> y == n - 1) by (nonlinear_arith)
        requires
            0 <= y < n,
            0 <= s < n,
            s - 1 == y + b * n,
    ;
    law_selecting_a_row(m.fuzzel, x);
    law_selecting_a_row(m.fuzzel, y);
}

/// In an empty list the keys that move the selection leave the list as it is.
pub proof fn law_nothing_to_move_over(m: LauncherModel, text: Option<Seq<char>>)
    requires
        m.fuzzel.filtered_items.len() == 0,
        m.fuzzel.selected == 0,
    ensures
        m.after_key(KeyModel::ArrowDown, text).fuzzel == m.fuzzel,
        m.after_key(KeyModel::ArrowUp, text).fuzzel == m.fuzzel,
        m.after_key(KeyModel::Tab, text).fuzzel == m.fuzzel,
        m.after_back_tab() == m,
        m.after_key(KeyModel::Enter, text).selected_item == m.selected_item,
        m.after_key(KeyModel::Enter, text).fade_out == m.fade_out,
        m.choice() is None,
{
}

/// The enter key takes the selected item and closes the launcher; the escape key closes it
/// and takes nothing. Neither changes the list.
pub proof fn law_enter_takes_and_escape_leaves(m: LauncherModel, text: Option<Seq<char>>)
    ensures
        ({
            let enter = m.after_key(KeyModel::Enter, text);
            let escape = m.after_key(KeyModel::Escape, text);
            let s = m.fuzzel.selected;
            &&& 0 <= s < m.fuzzel.filtered_items.len() ==> enter.selected_item == Some(
                m.fuzzel.filtered_items[s],
            ) && enter.fade_out && (m.choice() matches Some(c) && c.item
                == m.fuzzel.filtered_items[s])
            &&& enter.fuzzel == m.fuzzel && enter.redraw
            &&& escape.fade_out && escape.redraw && escape.fuzzel == m.fuzzel
            &&& escape.selected_item == m.selected_item
        }),
{
}

/// In the mode that shows widgets only the escape key closes the launcher, and only where no
/// widget has made use of it.
pub proof fn law_escape_closes_widgets(m: LauncherModel, key: KeyModel, handled: bool)
    ensures
        m.after_widget_key(key, handled).fade_out == (m.fade_out || (!handled && key is Escape)),
        m.after_widget_key(key, handled).redraw == (m.redraw || handled || key is Escape),
        m.after_widget_key(key, handled).fuzzel == m.fuzzel,
        m.after_widget_key(key, handled).selected_item == m.selected_item,
{
}

/// A key counts when it goes down, not when it comes up. By their symbols, the shifted
/// tabulator key goes back a row, and the others do what the keys they stand for do; in the
/// mode that shows widgets the list is left alone.
pub proof fn law_keys_by_symbol(
    m: LauncherModel,
    sym: u32,
    typed: Option<char>,
    text: Option<Seq<char>>,
    nav: NavKeys,
)
    ensures
        m.after_sym(false, sym, typed, text, nav) == m,
        m.after_sym(true, 0xfe20, typed, text, nav) == m.after_back_tab(),
        m.mode == LauncherMode::Json && sym != 0xfe20 ==> m.after_sym(true, sym, typed, text, nav)
            == m,
        m.mode != LauncherMode::Json ==> {
            &&& m.after_sym(true, 0xff1b, typed, text, nav) == m.after_key(KeyModel::Escape, text)
            &&& m.after_sym(true, 0xff0d, typed, text, nav) == m.after_key(KeyModel::Enter, text)
            &&& m.after_sym(true, 0xff08, typed, text, nav) == m.after_key(
                KeyModel::Backspace,
                text,
            )
            &&& m.after_sym(true, 0xff54, typed, text, nav) == m.after_key(
                KeyModel::ArrowDown,
                text,
            )
            &&& m.after_sym(true, 0xff52, typed, text, nav) == m.after_key(KeyModel::ArrowUp, text)
            &&& m.after_sym(true, 0xff09, typed, text, nav) == m.after_key(KeyModel::Tab, text)
            &&& m.after_sym(true, 0x20, typed, text, nav) == m.after_key(KeyModel::Space, text)
        },
{
}

/// The size of the launcher is adapted exactly where the query may change: at the backspace
/// key, and at a key that types a text.
pub proof fn law_size_follows_query(m: LauncherModel, key: KeyModel, text: Option<Seq<char>>)
    ensures
        resizes(key, text) <==> key is Backspace || (text is Some && !(key is Escape || key is Enter
            || key is Tab || key is ArrowDown || key is ArrowUp)),
        !resizes(key, text) ==> m.after_key(key, text).fuzzel.query == m.fuzzel.query,
{
}

/// Releasing the super key takes the selected item in the switcher, and does nothing else
/// anywhere; the state of the modifier keys is noted.
pub proof fn law_releasing_super_takes(m: LauncherModel, ctrl: bool, logo: bool)
    ensures
        ({
            let after = m.after_modifiers(ctrl, logo);
            let s = m.fuzzel.selected;
            let taken = m.switcher_mode && m.super_pressed && !logo && 0 <= s
                < m.fuzzel.filtered_items.len();
            &&& after.ctrl_pressed == ctrl && after.super_pressed == logo
            &&& after.fuzzel == m.fuzzel
            &&& taken ==> after.selected_item == Some(m.fuzzel.filtered_items[s]) && after.fade_out
            &&& !taken ==> after.selected_item == m.selected_item && after.fade_out == m.fade_out
        }),
{
}

/// A press on a row selects it. It takes the item there in the switcher, among lines of
/// input, and where the row was selected before; elsewhere it takes nothing.
pub proof fn law_press_selects_row(m: LauncherModel, py: int, row: int)
    requires
        0 <= row < m.fuzzel.filtered_items.len(),
        row * 25 * PX <= py - m.fuzzel.viewport_y + m.fuzzel.scroll_y < (row + 1) * 25 * PX,
    ensures
        ({
            let after = m.after_row_press(py);
            let takes = m.switcher_mode || m.mode == LauncherMode::Dmenu || m.fuzzel.selected
                == row;
            &&& after.fuzzel.selected == row
            &&& after.fuzzel.filtered_items == m.fuzzel.filtered_items
            &&& after.fuzzel.query == m.fuzzel.query
            &&& after.redraw
            &&& takes ==> after.selected_item == Some(m.fuzzel.filtered_items[row])
                && after.fade_out
            &&& !takes ==> after.selected_item == m.selected_item && after.fade_out == m.fade_out
        }),
{
    law_row_under_pointer(m.fuzzel, py, row);
}

/// An item of the list of executables is run as a command; an item of the list of
/// applications runs the command of the first application with its name; what was chosen
/// among lines of input or widgets runs nothing.
pub proof fn law_what_an_item_runs(apps: Seq<AppInfo>, item: Seq<char>, i: int)
    ensures
        launch_for(LauncherMode::Path, apps, item) == LaunchModel::Command(item),
        launch_for(LauncherMode::Dmenu, apps, item) == LaunchModel::Nothing,
        launch_for(LauncherMode::Json, apps, item) == LaunchModel::Nothing,
        (0 <= i < apps.len() && apps[i].name@ == item && forall|j: int|
            0 <= j < i ==> (#[trigger] apps[j]).name@ != item) ==> launch_for(
            LauncherMode::Apps,
            apps,
            item,
        ) == (LaunchModel::App { name: item, command: apps[i].command@ }),
        (forall|j: int| 0 <= j < apps.len() ==> (#[trigger] apps[j]).name@ != item) ==> launch_for(
            LauncherMode::Apps,
            apps,
            item,
        ) == LaunchModel::Nothing,
    decreases apps.len(),
{
    if apps.len() > 0 && apps[0].name@ != item {
        let rest = apps.drop_first();
        law_what_an_item_runs(rest, item, i - 1);
        if 0 <= i < apps.len() && apps[i].name@ == item && forall|j: int|
            0 <= j < i ==> (#[trigger] apps[j]).name@ != item {
            assert(rest[i - 1] == apps[i]);
            assert forall|j: int| 0 <= j < i - 1 implies (#[trigger] rest[j]).name@ != item by {
                assert(rest[j] == apps[j + 1]);
            }
        }
        if forall|j: int| 0 <= j < apps.len() ==> (#[trigger] apps[j]).name@ != item {
            assert forall|j: int| 0 <= j < rest.len() implies (#[trigger] rest[j]).name@
                != item by {
                assert(rest[j] == apps[j + 1]);
            }
        }
    }
}

proof fn lemma_first_place_is(v: Seq<Seq<char>>, t: Seq<char>)
    ensures
        match first_place(v, t) {
            Some(i) => 0 <= i < v.len() && v[i] == t && forall|j: int| 0 <= j < i ==> #[trigger] v[j] != t,
            None => forall|j: int| 0 <= j < v.len() ==> #[trigger] v[j] != t,
        },
    decreases v.len(),
{
    if v.len() > 0 {
        let head = v.drop_last();
        lemma_first_place_is(head, t);
        match first_place(head, t) {
            Some(i) => {
                assert(head[i] == v[i]);
                assert forall|j: int| 0 <= j < i implies #[trigger] v[j] != t by {
                    assert(head[j] == v[j]);
                }
            },
            None => {
                assert forall|j: int| 0 <= j < v.len() - 1 implies #[trigger] v[j] != t by {
                    assert(head[j] == v[j]);
                }
                assert(v.last() == v[v.len() - 1]);
            },
        }
    }
}

/// New items are shown as far as they match the query. The first shown item whose lower-case
/// form is that of the item to select is selected, and then nothing is left to select; the
/// wish stays while no such item is shown. Without a wish the switcher selects the second
/// item.
pub proof fn law_new_items_select(m: LauncherModel, items: Seq<Seq<char>>, i: int)
    ensures
        ({
            let after = m.with_new_items(items);
            let shown = ranked(items, m.fuzzel.query);
            &&& after.fuzzel.all_items == items
            &&& after.fuzzel.query == m.fuzzel.query
            &&& after.fuzzel.filtered_items == shown
            &&& after.selected_item == m.selected_item && after.fade_out == m.fade_out
            &&& (m.select_item matches Some(name) && 0 <= i < shown.len() && lowercase(shown[i])
                == lowercase(name) && forall|j: int|
                0 <= j < i ==> lowercase(#[trigger] shown[j]) != lowercase(name))
                ==> after.fuzzel.selected == i && after.select_item is None
            &&& (m.select_item matches Some(name) && forall|j: int|
                0 <= j < shown.len() ==> lowercase(#[trigger] shown[j]) != lowercase(name))
                ==> after.select_item == m.select_item && (0 <= m.fuzzel.selected < shown.len()
                ==> after.fuzzel.selected == m.fuzzel.selected)
            &&& m.select_item is None && m.switcher_mode && shown.len() > 1
                ==> after.fuzzel.selected == 1
            &&& m.select_item is None && !m.switcher_mode && 0 <= m.fuzzel.selected < shown.len()
                ==> after.fuzzel.selected == m.fuzzel.selected
        }),
{
    reveal(LauncherModel::with_new_items);
    let f = m.fuzzel.with_items(items);
    let shown = ranked(items, m.fuzzel.query);
    law_items_shown_if_matching(m.fuzzel, items);
    match m.select_item {
        Some(name) => {
            let low = lowered_all(shown);
            let t = lowercase(name);
            lemma_first_place_is(low, t);
            if 0 <= i < shown.len() && lowercase(shown[i]) == t && forall|j: int|
                0 <= j < i ==> lowercase(#[trigger] shown[j]) != t {
                assert(low[i] == t);
                let k = first_place(low, t)->0;
                if k < i {
                    assert(low[k] == lowercase(shown[k]));
                }
                if i < k {
                    assert(low[i] != t);
                }
                law_selecting_a_row(f, i);
            }
            if forall|j: int| 0 <= j < shown.len() ==> lowercase(#[trigger] shown[j]) != t {
                if first_place(low, t) is Some {
                    let k = first_place(low, t)->0;
                    assert(low[k] == lowercase(shown[k]));
                }
            }
            if first_place(low, t) is Some {
                law_selecting_a_row(f, first_place(low, t)->0);
            }
        },
        None => {
            if shown.len() > 1 {
                law_selecting_a_row(f, 1);
            }
        },
    }
}

/// A look at input without news changes nothing. News brings the items of the input into the
/// list where they differ from those in it, and moves the selection by the steps that the
/// input asks for; otherwise the selection is where the items left it.
pub proof fn law_input_reaches_list(m: LauncherModel, s: StdinModel)
    ensures
        !s.new_data ==> m.after_input(s) == m,
        s.new_data ==> m.after_input(s).fuzzel.all_items == s.items,
        s.new_data && m.fuzzel.all_items != s.items ==> m.after_input(s).fuzzel.filtered_items
            == ranked(s.items, m.fuzzel.query),
        s.new_data && m.fuzzel.all_items == s.items ==> m.after_input(s).fuzzel.filtered_items
            == m.fuzzel.filtered_items,
        s.new_data ==> m.after_input(s).select_and_close_requested == (m.select_and_close_requested
            || s.select_and_close),
        s.new_data && m.fuzzel.all_items == s.items && m.fuzzel.filtered_items.len() > 0 && s.cycle_next
            == 1 && s.cycle_prev == 0 && 0 <= m.fuzzel.selected && m.fuzzel.selected + 1
            < m.fuzzel.filtered_items.len() ==> m.after_input(s).fuzzel.selected
            == m.fuzzel.selected + 1,
        s.new_data && m.fuzzel.all_items == s.items && m.fuzzel.filtered_items.len() > 0 && s.cycle_next
            == 0 && s.cycle_prev == 1 && 0 < m.fuzzel.selected < m.fuzzel.filtered_items.len()
            ==> m.after_input(s).fuzzel.selected == m.fuzzel.selected - 1,
        s.new_data && m.fuzzel.all_items == s.items && s.cycle_next == 0 && s.cycle_prev == 0
            ==> m.after_input(s).fuzzel == m.fuzzel,
{
    let noted = LauncherModel {
        select_and_close_requested: m.select_and_close_requested || s.select_and_close,
        ..m
    };
    if m.fuzzel.all_items != s.items {
        law_new_items_select(noted, s.items, 0);
        reveal(LauncherModel::with_new_items);
    } else {
        let n = m.fuzzel.filtered_items.len() as int;
        if n > 0 {
            let x = m.fuzzel.selected;
            if 0 <= x && x + 1 < n {
                vstd::arithmetic::div_mod::lemma_small_mod((x + 1) as nat, n as nat);
            }
            if 0 < x < n {
                vstd::arithmetic::div_mod::lemma_small_mod((x - 1) as nat, n as nat);
            }
        }
    }
    let now = m.with_input_items(s);
    if m.input_steps(s) {
        let t = law_steps_move_by_difference(now.fuzzel, s.cycle_next, s.cycle_prev);
        law_selecting_a_row(now.fuzzel, cycled(now.fuzzel, s.cycle_next, s.cycle_prev));
    }
}

/// Input that asks for the selected item to be taken has it taken, at once, and asks no more
/// afterwards; other input takes nothing.
pub proof fn law_input_can_take_selection(m: LauncherModel, s: StdinModel)
    ensures
        ({
            let after = m.after_signal(s);
            let looked = m.after_input(s).fuzzel;
            let asked = m.select_and_close_requested || (s.new_data && s.select_and_close);
            &&& !after.select_and_close_requested
            &&& after.fuzzel == looked
            &&& asked && 0 <= looked.selected < looked.filtered_items.len()
                ==> after.selected_item == Some(looked.filtered_items[looked.selected])
                && after.fade_out && (m.signal_choice(s) matches Some(c) && c.item
                == looked.filtered_items[looked.selected])
            &&& !asked ==> after.selected_item == m.selected_item && after.fade_out == m.fade_out
                && m.signal_choice(s) is None
        }),
{
    law_input_reaches_list(m, s);
    reveal(LauncherModel::with_new_items);
}

/// A key that comes up is ignored, and the shifted tabulator key goes back. In the mode that
/// shows widgets, the controls are asked about every other key. In a list, the enter key
/// brings a choice and no other key does, and the backspace key and text change the size.
pub proof fn law_steps_for_keys(
    step: KeyStep,
    m: LauncherModel,
    sym: u32,
    typed: Option<char>,
    text: Option<Seq<char>>,
    nav: NavKeys,
)
    ensures
        step_fits(step, m, false, sym, typed, text, nav) <==> step is Ignored,
        step_fits(step, m, true, 0xfe20, typed, text, nav) <==> step is Back,
        m.mode == LauncherMode::Json ==> (step_fits(step, m, true, 0xff1b, typed, text, nav) <==> (
        step matches KeyStep::AskControls(k) && k@ == KeyModel::Escape)),
        m.mode != LauncherMode::Json ==> (step_fits(step, m, true, 0xff0d, typed, text, nav) <==> (
        step matches KeyStep::Taken(out) && opt_choice(out.choice) == m.choice() && !out.resize)),
        m.mode != LauncherMode::Json ==> (step_fits(step, m, true, 0xff08, typed, text, nav) <==> (
        step matches KeyStep::Taken(out) && out.choice is None && out.resize)),
        m.mode != LauncherMode::Json ==> (step_fits(step, m, true, 0xff54, typed, text, nav) <==> (
        step matches KeyStep::Taken(out) && out.choice is None && !out.resize)),
        m.mode != LauncherMode::Json ==> (step_fits(step, m, true, 0x20, typed, text, nav) <==> (
        step matches KeyStep::Taken(out) && out.choice is None && out.resize == (text is Some))),
{
}

/// Steps in the input move the selection from where the input without them would leave it, by
/// their difference around the ends, new items or not.
pub proof fn law_input_steps_from_there(m: LauncherModel, s: StdinModel)
    requires
        s.new_data,
        s.cycle_next >= 0 && s.cycle_prev >= 0,
    ensures
        ({
            let still = m.after_input(StdinModel { cycle_next: 0, cycle_prev: 0, ..s }).fuzzel;
            let moved = m.after_input(s).fuzzel;
            let n = still.filtered_items.len() as int;
            &&& moved.filtered_items == still.filtered_items
            &&& n > 0 && s.cycle_next + s.cycle_prev > 0 ==> moved.selected == (still.selected
                + s.cycle_next - s.cycle_prev) % n
            &&& n == 0 || s.cycle_next + s.cycle_prev == 0 ==> moved == still
        }),
{
    let calm = StdinModel { cycle_next: 0, cycle_prev: 0, ..s };
    assert(m.with_input_items(calm) == m.with_input_items(s));
    let now = m.with_input_items(s);
    if m.input_steps(s) {
        let t = law_steps_move_by_difference(now.fuzzel, s.cycle_next, s.cycle_prev);
        law_selecting_a_row(now.fuzzel, cycled(now.fuzzel, s.cycle_next, s.cycle_prev));
    }
}

/// New items and steps over a list that shows something are drawn; input without news is not
/// drawn on its account.
pub proof fn law_news_is_drawn(m: LauncherModel, s: StdinModel)
    ensures
        s.new_data && m.fuzzel.all_items != s.items ==> m.after_signal(s).redraw,
        s.new_data && s.cycle_next > 0 && m.after_input(s).fuzzel.filtered_items.len() > 0
            ==> m.after_signal(s).redraw,
        s.new_data && s.cycle_prev > 0 && m.after_input(s).fuzzel.filtered_items.len() > 0
            ==> m.after_signal(s).redraw,
        !s.new_data && !m.select_and_close_requested ==> m.after_signal(s) == m,
{
    let now = m.with_input_items(s);
    if m.input_steps(s) {
        let t = law_steps_move_by_difference(now.fuzzel, s.cycle_next, s.cycle_prev);
        law_selecting_a_row(now.fuzzel, cycled(now.fuzzel, s.cycle_next, s.cycle_prev));
    }
    reveal(LauncherModel::with_new_items);
}

/// A choice is of the selected item, with what the item runs in the mode of the launcher.
pub proof fn law_choice_runs_its_item(m: LauncherModel)
    requires
        0 <= m.fuzzel.selected < m.fuzzel.filtered_items.len(),
    ensures
        ({
            let item = m.fuzzel.filtered_items[m.fuzzel.selected];
            m.choice() == Some(ChoiceModel { item, launch: launch_for(m.mode, m.apps, item) })
        }),
{
}

} // verus!

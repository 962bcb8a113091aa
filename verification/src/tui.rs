//! State of the interactive front-end and how it reacts to keys and to finished
//! scans: the Discover → Scope → Inspect flow. Drawing and the event loop live
//! outside the library; they hand key presses and scan outcomes to [`App`] and
//! carry out the [`Action`]s it returns.

use vstd::prelude::*;

use crate::format::{join, port_numbers, ports_text};
use crate::scope::{resolved, PortSelection};
use crate::types::{Host, HostReport, PortSpec};

verus! {

/// Port presets offered on the Scope screen, in display order.
pub const PRESET_COUNT: usize = 3;

/// The label of each Scope preset, in display order.
pub fn preset_label(index: usize) -> (r: &'static str)
    requires
        index < PRESET_COUNT,
    ensures
        r@ == (if index == 0 {
            "Web"@
        } else if index == 1 {
            "Common"@
        } else {
            "All"@
        }),
{
    if index == 0 {
        "Web"
    } else if index == 1 {
        "Common"
    } else {
        "All"
    }
}

/// The selection a preset index stands for (indices past the end mean all ports).
pub open spec fn preset_selection(index: usize) -> PortSelection {
    if index == 0 {
        PortSelection::Web
    } else if index == 1 {
        PortSelection::Common
    } else {
        PortSelection::All
    }
}

/// The [`PortSpec`] for a preset index (clamped to [`PortSpec::All`]).
pub fn preset_spec(index: usize) -> (r: PortSpec)
    ensures
        r@ == preset_selection(index),
{
    match index {
        0 => PortSpec::Web,
        1 => PortSpec::Common,
        _ => PortSpec::All,
    }
}

/// The footnote under a preset: `1-65535` for all ports, otherwise the ports the
/// preset resolves to, comma-separated.
pub open spec fn preset_hint_text(index: usize) -> Seq<char> {
    match preset_selection(index) {
        PortSelection::All => "1-65535"@,
        selection => match resolved(selection) {
            Ok(ports) => ports_text(ports),
            Err(_) => Seq::empty(),
        },
    }
}

/// Human-readable summary of the ports a preset covers, for the Scope footnote.
/// Derived from [`PortSpec::resolve`] so it can't drift from the core port lists.
pub fn preset_hint(index: usize) -> (r: String)
    ensures
        r@ == preset_hint_text(index),
{
    let spec = preset_spec(index);
    match spec {
        PortSpec::All => String::from_str("1-65535"),
        _ => match spec.resolve() {
            Ok(ports) => crate::format::format_ports(ports.as_slice()),
            Err(_) => String::new(),
        },
    }
}

/// Which screen of the flow is currently shown.
#[derive(Clone, Copy, Debug, PartialEq, Eq, Structural)]
pub enum Screen {
    Discover,
    Scope,
    Inspect,
}

/// State of the background discover scan.
#[derive(Debug)]
pub enum Scan {
    Running,
    Done(Vec<Host>),
    Failed(String),
}

/// State of the inspect run for the selected host.
#[derive(Debug)]
pub enum Inspection {
    Running,
    /// Finished; `None` means the host had no open ports.
    Done(Option<HostReport>),
    Failed(String),
}

/// A key, as far as the front-end tells keys apart.
#[derive(Clone, Copy, Debug, PartialEq, Eq, Structural)]
pub enum Key {
    Char(char),
    Up,
    Down,
    Left,
    Right,
    Enter,
    Esc,
    Backspace,
    Other,
}

/// A keyboard event: the key, whether Control was held, and whether it is a press
/// (as opposed to a release or repeat).
#[derive(Clone, Copy, Debug, PartialEq, Eq, Structural)]
pub struct KeyEvent {
    pub key: Key,
    pub ctrl: bool,
    pub press: bool,
}

/// Side effect the event loop must perform after handling an event.
pub enum Action {
    Nothing,
    /// Start inspecting `host` with `spec`; when `cancel_previous` is set, an
    /// inspection is still in flight and must be abandoned first.
    Inspect { host: Host, spec: PortSpec, cancel_previous: bool },
}

/// The action starts inspecting `target` with the ports of the given preset,
/// abandoning the inspection in flight exactly when there is one.
pub open spec fn inspects(
    action: Action,
    target: Option<Host>,
    preset: usize,
    in_flight: bool,
) -> bool {
    match action {
        Action::Inspect { host, spec, cancel_previous } => Some(host) == target && spec@
            == preset_selection(preset) && cancel_previous == in_flight,
        Action::Nothing => false,
    }
}

/// The front-end's mutable state, owned by the event loop.
pub struct App {
    pub screen: Screen,
    pub discover: Scan,
    /// The highlighted row of the discovered-host list.
    pub selected: Option<usize>,
    /// Host chosen on Discover, carried through Scope and Inspect.
    pub target: Option<Host>,
    /// Selected preset index on the Scope screen.
    pub preset: usize,
    pub inspection: Inspection,
    /// Whether an inspection has been started and has not finished yet.
    pub inspect_in_flight: bool,
    pub spinner_frame: usize,
    pub should_quit: bool,
}

/// The number of selectable rows in the discovered list.
pub open spec fn row_count(discover: Scan) -> nat {
    match discover {
        Scan::Done(hosts) => hosts@.len(),
        _ => 0,
    }
}

/// The host currently highlighted in the discovered list, if any.
pub open spec fn highlighted(app: App) -> Option<Host> {
    match app.discover {
        Scan::Done(hosts) => match app.selected {
            Some(i) => if i < hosts@.len() {
                Some(hosts@[i as int])
            } else {
                None
            },
            None => None,
        },
        _ => None,
    }
}

/// Moving the highlight down: onto the first row if none is highlighted, stopping
/// at the last row; nothing changes in an empty list.
pub open spec fn next_row(selected: Option<usize>, count: nat) -> Option<usize> {
    if count == 0 {
        selected
    } else {
        match selected {
            None => Some(0),
            Some(i) => Some(if i + 1 <= count - 1 {
                (i + 1) as usize
            } else {
                (count - 1) as usize
            }),
        }
    }
}

/// Moving the highlight up: onto the first row if none is highlighted, stopping at
/// the first row; nothing changes in an empty list.
pub open spec fn previous_row(selected: Option<usize>, count: nat) -> Option<usize> {
    if count == 0 {
        selected
    } else {
        match selected {
            None => Some(0),
            Some(i) => Some(
                if i == 0 {
                    0
                } else {
                    (i - 1) as usize
                },
            ),
        }
    }
}

/// `q`, or `c` with Control, quits from any screen.
pub open spec fn is_quit(event: KeyEvent) -> bool {
    event.key == Key::Char('q') || (event.key == Key::Char('c') && event.ctrl)
}

pub open spec fn is_down(key: Key) -> bool {
    key == Key::Down || key == Key::Char('j')
}

pub open spec fn is_up(key: Key) -> bool {
    key == Key::Up || key == Key::Char('k')
}

/// A key on the Discover screen: move the highlight, or take the highlighted host
/// to the Scope screen with the first preset selected.
pub open spec fn discover_key(app: App, key: Key) -> App {
    if is_down(key) {
        App { selected: next_row(app.selected, row_count(app.discover)), ..app }
    } else if is_up(key) {
        App { selected: previous_row(app.selected, row_count(app.discover)), ..app }
    } else if key == Key::Enter {
        match highlighted(app) {
            Some(host) => App { target: Some(host), preset: 0, screen: Screen::Scope, ..app },
            None => app,
        }
    } else {
        app
    }
}

/// A key on the Scope screen: move between presets, go back, or start inspecting
/// the target with the selected preset (back to Discover if there is no target).
pub open spec fn scope_key(app: App, key: Key) -> App {
    if is_up(key) || key == Key::Left {
        App {
            preset: if app.preset == 0 {
                0
            } else {
                (app.preset - 1) as usize
            },
            ..app
        }
    } else if is_down(key) || key == Key::Right {
        App {
            preset: if app.preset + 1 <= PRESET_COUNT - 1 {
                (app.preset + 1) as usize
            } else {
                (PRESET_COUNT - 1) as usize
            },
            ..app
        }
    } else if key == Key::Esc {
        App { screen: Screen::Discover, ..app }
    } else if key == Key::Enter {
        match app.target {
            Some(_) => App {
                screen: Screen::Inspect,
                inspection: Inspection::Running,
                inspect_in_flight: true,
                ..app
            },
            None => App { screen: Screen::Discover, ..app },
        }
    } else {
        app
    }
}

/// A key on the Inspect screen: Esc or Backspace go back to Discover.
pub open spec fn inspect_key(app: App, key: Key) -> App {
    if key == Key::Esc || key == Key::Backspace {
        App { screen: Screen::Discover, ..app }
    } else {
        app
    }
}

/// What a key event does to the front-end: a release changes nothing; `q` or
/// Ctrl-C quits; otherwise the key acts on the current screen. Enter on Scope with
/// a target is the only key that starts an inspection.
pub open spec fn key_step(before: App, after: App, event: KeyEvent, action: Action) -> bool {
    &&& !event.press ==> after == before && action is Nothing
    &&& event.press && is_quit(event) ==> after == (App { should_quit: true, ..before })
        && action is Nothing
    &&& event.press && !is_quit(event) ==> match before.screen {
        Screen::Discover => after == discover_key(before, event.key) && action is Nothing,
        Screen::Scope => {
            &&& after == scope_key(before, event.key)
            &&& (event.key == Key::Enter && before.target is Some) ==> inspects(
                action,
                before.target,
                before.preset,
                before.inspect_in_flight,
            )
            &&& !(event.key == Key::Enter && before.target is Some) ==> action is Nothing
        },
        Screen::Inspect => after == inspect_key(before, event.key) && action is Nothing,
    }
}

/// What a finished inspection does: none is in flight any more, and its outcome
/// is kept only while the Inspect screen is shown.
pub open spec fn inspect_done_step(before: App, after: App, outcome: Inspection) -> bool {
    if before.screen == Screen::Inspect {
        after == (App { inspection: outcome, inspect_in_flight: false, ..before })
    } else {
        after == (App { inspect_in_flight: false, ..before })
    }
}

/// What a finished discover scan does: its hosts (highlighting the first, if any)
/// or its error message; nothing else changes.
pub open spec fn discover_done_step(before: App, after: App, result: Result<Vec<Host>, String>) -> bool {
    match result {
        Ok(hosts) => after == (App {
            discover: Scan::Done(hosts),
            selected: if hosts@.len() > 0 {
                Some(0usize)
            } else {
                before.selected
            },
            ..before
        }),
        Err(err) => after == (App { discover: Scan::Failed(err), ..before }),
    }
}

/// What a spinner tick does: the next frame.
pub open spec fn tick_step(before: App, after: App) -> bool {
    after == (App { spinner_frame: before.spinner_frame.wrapping_add(1), ..before })
}

impl App {
    pub fn new() -> (r: App)
        ensures
            r.screen == Screen::Discover,
            r.discover is Running,
            r.selected is None,
            r.target is None,
            r.preset == 0,
            r.inspection is Running,
            !r.inspect_in_flight,
            r.spinner_frame == 0,
            !r.should_quit,
    {
        App {
            screen: Screen::Discover,
            discover: Scan::Running,
            selected: None,
            target: None,
            preset: 0,
            inspection: Inspection::Running,
            inspect_in_flight: false,
            spinner_frame: 0,
            should_quit: false,
        }
    }

    /// Handle a single input event, returning any side effect for the loop to run.
    pub fn on_event(&mut self, event: KeyEvent) -> (r: Action)
        ensures
            key_step(*old(self), *final(self), event, r),
    {
        if !event.press {
            return Action::Nothing;
        }
        let ctrl_c = event.key == Key::Char('c') && event.ctrl;
        if event.key == Key::Char('q') || ctrl_c {
            self.should_quit = true;
            return Action::Nothing;
        }
        match self.screen {
            Screen::Discover => {
                self.on_discover_key(event.key);
                Action::Nothing
            },
            Screen::Scope => self.on_scope_key(event.key),
            Screen::Inspect => {
                self.on_inspect_key(event.key);
                Action::Nothing
            },
        }
    }

    fn on_discover_key(&mut self, key: Key)
        ensures
            *final(self) == discover_key(*old(self), key),
    {
        if key == Key::Down || key == Key::Char('j') {
            self.select_next();
        } else if key == Key::Up || key == Key::Char('k') {
            self.select_previous();
        } else if key == Key::Enter {
            if let Some(host) = self.selected_host() {
                self.target = Some(host);
                self.preset = 0;
                self.screen = Screen::Scope;
            }
        }
    }

    fn on_scope_key(&mut self, key: Key) -> (r: Action)
        ensures
            *final(self) == scope_key(*old(self), key),
            (key == Key::Enter && old(self).target is Some) ==> inspects(
                r,
                old(self).target,
                old(self).preset,
                old(self).inspect_in_flight,
            ),
            !(key == Key::Enter && old(self).target is Some) ==> r is Nothing,
    {
        if key == Key::Up || key == Key::Char('k') || key == Key::Left {
            self.preset = self.preset.saturating_sub(1);
        } else if key == Key::Down || key == Key::Char('j') || key == Key::Right {
            self.preset = if self.preset < PRESET_COUNT - 1 {
                self.preset + 1
            } else {
                PRESET_COUNT - 1
            };
        } else if key == Key::Esc {
            self.screen = Screen::Discover;
        } else if key == Key::Enter {
            if let Some(host) = self.target {
                self.screen = Screen::Inspect;
                self.inspection = Inspection::Running;
                let cancel_previous = self.inspect_in_flight;
                self.inspect_in_flight = true;
                return Action::Inspect { host, spec: preset_spec(self.preset), cancel_previous };
            }
            self.screen = Screen::Discover;
        }
        Action::Nothing
    }

    fn on_inspect_key(&mut self, key: Key)
        ensures
            *final(self) == inspect_key(*old(self), key),
    {
        if key == Key::Esc || key == Key::Backspace {
            self.screen = Screen::Discover;
        }
    }

    /// The host currently highlighted in the discovered list, if any.
    pub fn selected_host(&self) -> (r: Option<Host>)
        ensures
            r == highlighted(*self),
    {
        match &self.discover {
            Scan::Done(hosts) => match self.selected {
                Some(i) => if i < hosts.len() {
                    Some(hosts[i])
                } else {
                    None
                },
                None => None,
            },
            _ => None,
        }
    }

    /// Number of selectable rows in the discovered list.
    pub fn row_count(&self) -> (r: usize)
        ensures
            r == row_count(self.discover),
    {
        match &self.discover {
            Scan::Done(hosts) => hosts.len(),
            _ => 0,
        }
    }

    fn select_next(&mut self)
        ensures
            *final(self) == (App {
                selected: next_row(old(self).selected, row_count(old(self).discover)),
                ..*old(self)
            }),
    {
        let count = self.row_count();
        if count == 0 {
            return;
        }
        let next = match self.selected {
            None => 0,
            Some(i) => if i < count - 1 {
                i + 1
            } else {
                count - 1
            },
        };
        self.selected = Some(next);
    }

    fn select_previous(&mut self)
        ensures
            *final(self) == (App {
                selected: previous_row(old(self).selected, row_count(old(self).discover)),
                ..*old(self)
            }),
    {
        if self.row_count() == 0 {
            return;
        }
        let previous = match self.selected {
            None => 0,
            Some(i) => i.saturating_sub(1),
        };
        self.selected = Some(previous);
    }

    /// Advance the spinner by one frame.
    pub fn on_tick(&mut self)
        ensures
            tick_step(*old(self), *final(self)),
    {
        self.spinner_frame = self.spinner_frame.wrapping_add(1);
    }

    /// The discover scan finished: its hosts (highlighting the first, if any) or
    /// its error message.
    pub fn on_discover_finished(&mut self, result: Result<Vec<Host>, String>)
        ensures
            discover_done_step(*old(self), *final(self), result),
    {
        match result {
            Ok(hosts) => {
                if hosts.len() > 0 {
                    self.selected = Some(0);
                }
                self.discover = Scan::Done(hosts);
            },
            Err(err) => {
                self.discover = Scan::Failed(err);
            },
        }
    }

    /// An inspect run finished: none is in flight any more, and its outcome is kept
    /// only while the Inspect screen is still shown.
    pub fn on_inspect_finished(&mut self, outcome: Inspection)
        ensures
            inspect_done_step(*old(self), *final(self), outcome),
    {
        self.inspect_in_flight = false;
        if self.screen == Screen::Inspect {
            self.inspection = outcome;
        }
    }
}

} // verus!

pub mod command_buffer_widget;
pub mod logs_widget;
pub mod tombstones_widget;

use vstd::prelude::*;

use crate::command::{Command, CommandView};
use crate::data_structures::show::Show;
use crate::tui::command_buffer_widget::{
    buffer_step,
    option_command_view,
    submits_unhandled,
    CommandBufferView,
    CommandBufferWidget,
};
use crate::tui::logs_widget::LogsWidget;
use crate::tui::tombstones_widget::{
    initial_tombstones,
    tombstones_key_fails,
    tombstones_step,
    TombstonesWidget,
};

verus! {

/// A key of the keyboard, as far as the interface tells keys apart.
#[derive(Copy, Clone, Debug, PartialEq, Eq, Structural)]
pub enum KeyCode {
    Char(char),
    Tab,
    Backspace,
    Enter,
    PageUp,
    PageDown,
    F(u8),
    Other,
}

/// A key event: the key, whether no modifier was held, and whether it was pressed (rather
/// than released or repeated).
#[derive(Copy, Clone, Debug, PartialEq, Eq, Structural)]
pub struct KeyEvent {
    pub code: KeyCode,
    pub modifiers_none: bool,
    pub press: bool,
}

/// `event` is the press of `code` with no modifier.
pub open spec fn is_plain_press_of(event: Event, code: KeyCode) -> bool {
    event matches Event::Key(k) && k.modifiers_none && k.press && k.code == code
}

/// An event of the terminal.
#[derive(Copy, Clone, Debug, PartialEq, Eq, Structural)]
pub enum Event {
    Key(KeyEvent),
    Other,
}

/// The tabs of the interface, in the order that Tab cycles through them.
#[derive(Copy, Clone, Debug, PartialEq, Eq, Structural)]
pub enum Tab {
    Tombstones,
    Setup,
    Logs,
}

/// The tab after `t`, round the end.
pub open spec fn next_tab(t: Tab) -> Tab {
    match t {
        Tab::Tombstones => Tab::Setup,
        Tab::Setup => Tab::Logs,
        Tab::Logs => Tab::Tombstones,
    }
}

/// Tab three times comes back to the tab that was shown.
pub proof fn lemma_tab_cycle(t: Tab)
    ensures
        next_tab(next_tab(next_tab(t))) == t,
{
}

impl Tab {
    /// The tab's name.
    pub fn to_string(&self) -> (res: String)
        ensures
            res@ == match *self {
                Tab::Tombstones => "Tombstones"@,
                Tab::Setup => "Setup"@,
                Tab::Logs => "Logs"@,
            },
    {
        match self {
            Tab::Tombstones => "Tombstones".to_owned(),
            Tab::Setup => "Setup".to_owned(),
            Tab::Logs => "Logs".to_owned(),
        }
    }

    /// Every tab, in order.
    pub fn all() -> (res: Vec<Tab>)
        ensures
            res@ == seq![Tab::Tombstones, Tab::Setup, Tab::Logs],
    {
        let mut v = Vec::new();
        v.push(Tab::Tombstones);
        v.push(Tab::Setup);
        v.push(Tab::Logs);
        v
    }
}

/// The interface: the command line, the tabs and which tab shows.
#[derive(Debug)]
pub struct Tui {
    pub command_buffer: CommandBufferWidget,
    pub tombstones: TombstonesWidget,
    pub logs: LogsWidget,
    pub selected_tab: Tab,
}

impl Tui {
    /// An empty command line and the tombstones tab.
    pub fn new() -> (res: Self)
        ensures
            res.command_buffer@ == CommandBufferView::Idle(Seq::empty()),
            res.tombstones == initial_tombstones(),
            res.selected_tab == Tab::Tombstones,
    {
        Tui {
            command_buffer: CommandBufferWidget::default(),
            tombstones: TombstonesWidget::new(),
            logs: LogsWidget::new(),
            selected_tab: Tab::Tombstones,
        }
    }

    /// Handles an event: `q` quits and Tab shows the next tab; any other event goes to the
    /// tombstones and then to the command line, which may give a command.
    pub fn handle_event(&mut self, event: Event, show: &Show) -> (res: Option<Command>)
        requires
            !tombstones_key_fails(old(self).tombstones, event, show.universes@.len()),
            !submits_unhandled(old(self).command_buffer@, event),
        ensures
            is_plain_press_of(event, KeyCode::Char('q')) ==> option_command_view(res) == Some(
                CommandView::Quit,
            ) && final(self).command_buffer@ == old(self).command_buffer@ && final(self).tombstones == old(self).tombstones && final(self).selected_tab == old(self).selected_tab,
            is_plain_press_of(event, KeyCode::Tab) ==> res is None && final(self).selected_tab
                == next_tab(old(self).selected_tab) && final(self).command_buffer@ == old(self).command_buffer@ && final(self).tombstones == old(self).tombstones,
            !is_plain_press_of(event, KeyCode::Char('q')) && !is_plain_press_of(event, KeyCode::Tab)
                ==> {
                &&& final(self).selected_tab == old(self).selected_tab
                &&& final(self).tombstones == tombstones_step(
                    old(self).tombstones,
                    event,
                    show.universes@.len(),
                )
                &&& (final(self).command_buffer@, option_command_view(res)) == buffer_step(
                    old(self).command_buffer@,
                    event,
                )
            },
    {
        if let Event::Key(k) = event {
            if k.modifiers_none && k.press {
                if k.code == KeyCode::Char('q') {
                    return Some(Command::Quit);
                }
                if k.code == KeyCode::Tab {
                    self.cycle_tab();
                    return None;
                }
            }
        }
        self.tombstones.handle_event(&event, show);
        self.command_buffer.handle_event(&event)
    }

    fn cycle_tab(&mut self)
        ensures
            final(self).selected_tab == next_tab(old(self).selected_tab),
            final(self).command_buffer@ == old(self).command_buffer@,
            final(self).tombstones == old(self).tombstones,
    {
        self.selected_tab = match self.selected_tab {
            Tab::Tombstones => Tab::Setup,
            Tab::Setup => Tab::Logs,
            Tab::Logs => Tab::Tombstones,
        };
    }

    /// Shows the answer to the last command on the command line.
    pub fn command_result(&mut self, res: Result<String, String>)
        ensures
            final(self).command_buffer@ == match res {
                Ok(m) => CommandBufferView::Success(Some(m@)),
                Err(m) => CommandBufferView::Error(m@),
            },
            final(self).tombstones == old(self).tombstones,
            final(self).selected_tab == old(self).selected_tab,
    {
        match res {
            Ok(success) => self.command_buffer.success(success),
            Err(failure) => self.command_buffer.error(failure),
        }
    }
}

impl Default for Tui {
    fn default() -> (res: Self)
        ensures
            res.command_buffer@ == CommandBufferView::Idle(Seq::empty()),
            res.tombstones == initial_tombstones(),
            res.selected_tab == Tab::Tombstones,
    {
        Self::new()
    }
}

/// The text above the tabs: the show's file, or `<unsaved>` where it has none.
pub fn header_text(show: &Show) -> (res: String)
    ensures
        res@ == match show.runtime.showfile {
            Some(p) => p@,
            None => "<unsaved>"@,
        },
{
    match &show.runtime.showfile {
        Some(path) => path.clone(),
        None => "<unsaved>".to_owned(),
    }
}

} // verus!

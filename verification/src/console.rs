//! The state of the operator's console: which connection is shown, how far
//! its log is scrolled, and the message being typed. The terminal itself is
//! the caller's: it hands over each key press and draws what the state says.

use crate::model::texts;
use crate::trusted::{display_width, text_width};
use vstd::prelude::*;

verus! {

/// Whether key presses are commands or text.
#[derive(Clone, Copy, Debug, PartialEq, Eq, Structural)]
pub enum InputMode {
    /// Keys are commands.
    Normal,
    /// Keys go into the input box.
    Editing,
}

/// A key press, as far as the console tells keys apart.
#[derive(Clone, Copy, Debug, PartialEq, Eq, Structural)]
pub enum Key {
    /// A character key.
    Char(char),
    Enter,
    Backspace,
    Esc,
    Left,
    Right,
    Up,
    Down,
    /// Any other key.
    Other,
}

/// What the caller has to do after a key press.
#[derive(Debug)]
pub enum Command {
    /// Nothing but to draw again.
    Nothing,
    /// Leave the program.
    Quit,
    /// Send `text` to the connection shown in tab `chat`.
    Send { chat: usize, text: String },
}

/// The console as mathematics.
pub struct ConsoleState {
    /// The text in the input box.
    pub input: Seq<char>,
    /// The input mode.
    pub input_mode: InputMode,
    /// The number of log lines scrolled past.
    pub scroll: usize,
    /// The tab of the connection that is shown, if one is.
    pub current_chat: Option<usize>,
}

/// The tab after the one at `current` among `connections` tabs, going round
/// from the last to the first. Before any tab was chosen, the first counts as
/// the current one. Without connections there is no tab to go to.
pub open spec fn next_chat(current: Option<usize>, connections: usize) -> Option<usize> {
    if connections == 0 {
        current
    } else {
        let from: usize = match current {
            Some(chat) => chat,
            None => 0,
        };
        Some(((from + 1) % (connections as int)) as usize)
    }
}

/// The tab before the one at `current` among `connections` tabs, going round
/// from the first to the last. Before any tab was chosen there is none to
/// leave, and without connections there is none to go to.
pub open spec fn previous_chat(current: Option<usize>, connections: usize) -> Option<usize> {
    match current {
        None => None,
        Some(chat) => if chat > 0 {
            Some((chat - 1) as usize)
        } else if connections > 0 {
            Some((connections - 1) as usize)
        } else {
            None
        },
    }
}

/// The scroll position one line up, if there is a line above.
pub open spec fn scrolled_up(scroll: usize) -> usize {
    if scroll > 0 {
        (scroll - 1) as usize
    } else {
        scroll
    }
}

/// The scroll position one line down, if fewer than `messages` lines have
/// been scrolled past.
pub open spec fn scrolled_down(scroll: usize, messages: usize) -> usize {
    if scroll < messages {
        (scroll + 1) as usize
    } else {
        scroll
    }
}

/// The column of the cursor behind a text of `width` columns in an input box
/// whose border is at column `origin`: one column for the border, then the
/// text. A column beyond the last one that a terminal can have is the last.
pub open spec fn cursor_position(origin: u16, width: usize) -> u16 {
    if origin + width + 1 <= u16::MAX {
        (origin + width + 1) as u16
    } else {
        u16::MAX
    }
}

/// The console after a key press.
pub open spec fn after_key(
    state: ConsoleState,
    key: Key,
    connections: usize,
    messages: usize,
) -> ConsoleState {
    match state.input_mode {
        InputMode::Normal => match key {
            Key::Char(c) => if c == 'e' {
                ConsoleState { input_mode: InputMode::Editing, ..state }
            } else {
                state
            },
            Key::Right => ConsoleState {
                current_chat: next_chat(state.current_chat, connections),
                ..state
            },
            Key::Left => ConsoleState {
                current_chat: previous_chat(state.current_chat, connections),
                ..state
            },
            Key::Up => ConsoleState { scroll: scrolled_up(state.scroll), ..state },
            Key::Down => ConsoleState { scroll: scrolled_down(state.scroll, messages), ..state },
            _ => state,
        },
        InputMode::Editing => match key {
            Key::Enter => if state.current_chat is Some {
                ConsoleState { input: Seq::empty(), ..state }
            } else {
                state
            },
            Key::Char(c) => ConsoleState { input: state.input.push(c), ..state },
            Key::Backspace => if state.input.len() > 0 {
                ConsoleState { input: state.input.drop_last(), ..state }
            } else {
                state
            },
            Key::Esc => ConsoleState { input_mode: InputMode::Normal, ..state },
            _ => state,
        },
    }
}

/// Whether a key press ends the program: `q` outside the input box.
pub open spec fn quits(state: ConsoleState, key: Key) -> bool {
    state.input_mode == InputMode::Normal && key == Key::Char('q')
}

/// The tab and the text of the message that a key press sends, if it sends
/// one: Enter in the input box, with a connection shown.
pub open spec fn sends(state: ConsoleState, key: Key) -> Option<(usize, Seq<char>)> {
    if state.input_mode == InputMode::Editing && key == Key::Enter && state.current_chat is Some {
        Some((state.current_chat->0, state.input))
    } else {
        None
    }
}

/// The state of the console.
pub struct App {
    input: String,
    input_mode: InputMode,
    scroll: usize,
    current_chat: Option<usize>,
}

impl View for App {
    type V = ConsoleState;

    closed spec fn view(&self) -> ConsoleState {
        ConsoleState {
            input: self.input@,
            input_mode: self.input_mode,
            scroll: self.scroll,
            current_chat: self.current_chat,
        }
    }
}

impl App {
    /// A console with an empty input box that takes commands and shows no
    /// connection.
    pub fn new() -> (app: App)
        ensures
            app@ == (ConsoleState {
                input: Seq::empty(),
                input_mode: InputMode::Normal,
                scroll: 0,
                current_chat: None,
            }),
    {
        App { input: String::new(), input_mode: InputMode::Normal, scroll: 0, current_chat: None }
    }

    /// The text in the input box.
    pub fn input(&self) -> (input: &str)
        ensures
            input@ == self@.input,
    {
        self.input.as_str()
    }

    /// The input mode.
    pub fn input_mode(&self) -> (mode: InputMode)
        ensures
            mode == self@.input_mode,
    {
        self.input_mode
    }

    /// The number of log lines scrolled past.
    pub fn scroll(&self) -> (scroll: usize)
        ensures
            scroll == self@.scroll,
    {
        self.scroll
    }

    /// The tab of the connection that is shown.
    pub fn current_chat(&self) -> (chat: Option<usize>)
        ensures
            chat == self@.current_chat,
    {
        self.current_chat
    }

    /// Shows the next connection, of `connections` that are live.
    pub fn next(&mut self, connections: usize)
        ensures
            final(self)@ == (ConsoleState {
                current_chat: next_chat(old(self)@.current_chat, connections),
                ..old(self)@
            }),
    {
        if connections > 0 {
            let from: usize = match self.current_chat {
                Some(chat) => chat,
                None => 0,
            };
            let within: usize = from % connections;
            let to: usize = if within + 1 == connections {
                0
            } else {
                within + 1
            };
            assert(to == (from + 1) % (connections as int)) by (nonlinear_arith)
                requires
                    connections > 0,
                    within == from % connections,
                    to == if within + 1 == connections {
                        0
                    } else {
                        within + 1
                    },
            ;
            self.current_chat = Some(to);
        }
    }

    /// Shows the connection before, of `connections` that are live.
    pub fn previous(&mut self, connections: usize)
        ensures
            final(self)@ == (ConsoleState {
                current_chat: previous_chat(old(self)@.current_chat, connections),
                ..old(self)@
            }),
    {
        match self.current_chat {
            Some(chat) => {
                if chat > 0 {
                    self.current_chat = Some(chat - 1);
                } else if connections > 0 {
                    self.current_chat = Some(connections - 1);
                } else {
                    self.current_chat = None;
                }
            },
            None => {},
        }
    }

    /// Scrolls the log one line up.
    pub fn scroll_up(&mut self)
        ensures
            final(self)@ == (ConsoleState { scroll: scrolled_up(old(self)@.scroll), ..old(self)@ }),
    {
        if self.scroll > 0 {
            self.scroll -= 1;
        }
    }

    /// Scrolls the log one line down, of `messages` lines that it has.
    pub fn scroll_down(&mut self, messages: usize)
        ensures
            final(self)@ == (ConsoleState {
                scroll: scrolled_down(old(self)@.scroll, messages),
                ..old(self)@
            }),
    {
        if self.scroll < messages {
            self.scroll += 1;
        }
    }

    /// Takes a key press. `connections` is the number of live connections and
    /// `messages` the number of lines in the log that is shown.
    pub fn handle_key(&mut self, key: Key, connections: usize, messages: usize) -> (command:
        Command)
        ensures
            final(self)@ == after_key(old(self)@, key, connections, messages),
            match command {
                Command::Quit => quits(old(self)@, key),
                Command::Send { chat, text } => sends(old(self)@, key) == Some((chat, text@)),
                Command::Nothing => !quits(old(self)@, key) && sends(old(self)@, key) is None,
            },
    {
        match self.input_mode {
            InputMode::Normal => match key {
                Key::Char(c) => {
                    if c == 'e' {
                        self.input_mode = InputMode::Editing;
                        Command::Nothing
                    } else if c == 'q' {
                        Command::Quit
                    } else {
                        Command::Nothing
                    }
                },
                Key::Right => {
                    self.next(connections);
                    Command::Nothing
                },
                Key::Left => {
                    self.previous(connections);
                    Command::Nothing
                },
                Key::Up => {
                    self.scroll_up();
                    Command::Nothing
                },
                Key::Down => {
                    self.scroll_down(messages);
                    Command::Nothing
                },
                _ => Command::Nothing,
            },
            InputMode::Editing => match key {
                Key::Enter => match self.current_chat {
                    Some(chat) => {
                        let text = self.input.clone();
                        self.input = String::new();
                        Command::Send { chat, text }
                    },
                    None => Command::Nothing,
                },
                Key::Char(c) => {
                    self.input.push(c);
                    Command::Nothing
                },
                Key::Backspace => {
                    self.input.pop();
                    Command::Nothing
                },
                Key::Esc => {
                    self.input_mode = InputMode::Normal;
                    Command::Nothing
                },
                _ => Command::Nothing,
            },
        }
    }
}

/// The column of the cursor behind a text of `width` columns in an input box
/// whose border is at column `origin`.
pub fn cursor_column(origin: u16, width: usize) -> (column: u16)
    ensures
        column == cursor_position(origin, width),
{
    if width >= 65535 {
        u16::MAX
    } else {
        let width: u16 = width as u16;
        if width < u16::MAX - origin {
            origin + width + 1
        } else {
            u16::MAX
        }
    }
}

/// The column of the cursor behind `input` in an input box whose border is at
/// column `origin`.
pub fn cursor_after(origin: u16, input: &str) -> (column: u16)
    ensures
        column == cursor_position(origin, display_width(input@)),
{
    cursor_column(origin, text_width(input))
}

/// The lines of a log that are shown when `scroll` lines have been scrolled
/// past: every later message, with its number in the log.
pub open spec fn visible(messages: Seq<Seq<char>>, scroll: usize) -> Seq<(usize, Seq<char>)> {
    Seq::new(
        if scroll < messages.len() {
            (messages.len() - scroll) as nat
        } else {
            0
        },
        |k: int| ((scroll + k) as usize, messages[scroll + k]),
    )
}

/// The numbers and texts of a list of lines.
pub open spec fn lines(shown: Seq<(usize, String)>) -> Seq<(usize, Seq<char>)> {
    Seq::new(shown.len(), |k: int| (shown[k].0, shown[k].1@))
}

/// The lines of `messages` to draw when `scroll` lines have been scrolled
/// past, each with its number in the log.
pub fn visible_lines(messages: &Vec<String>, scroll: usize) -> (shown: Vec<(usize, String)>)
    ensures
        lines(shown@) == visible(texts(messages@), scroll),
{
    let mut shown: Vec<(usize, String)> = Vec::new();
    let mut index: usize = scroll;
    while index < messages.len()
        invariant
            scroll <= index,
            index <= messages.len() || shown.len() == 0,
            shown.len() == if scroll < messages.len() {
                index - scroll
            } else {
                0
            },
            forall|k: int|
                0 <= k < shown.len() ==> (#[trigger] shown[k]).0 == scroll + k && shown[k].1@
                    == messages[scroll + k]@,
        decreases messages.len() - index,
    {
        shown.push((index, messages[index].clone()));
        index += 1;
    }
    assert(lines(shown@) =~= visible(texts(messages@), scroll));
    shown
}

} // verus!

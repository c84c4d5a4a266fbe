//! The launcher's state and its transition function.
//!
//! A [`MenuWindow`] holds the typed text, the catalog, the candidates that are
//! shown and the selection among them. [`MenuWindow::update`] takes one
//! [`Message`], changes the state and says in an [`Effect`] what is to be done
//! outside: nothing, deliver another message, start a command, or leave.

use vstd::prelude::*;
use vstd::string::StringExecFns;
use crate::config::{Config, ConfigView};
use crate::filter::{
    answer_prefix,
    filter,
    filtered,
    lemma_filtered_fits,
    shown_count,
    text_of,
};
use crate::selection::{
    Selection,
    Wheel,
    anchored_start,
    last_start,
    moved_index,
    scrolled_start,
};
use crate::text::{has_prefix, labels, to_chars};

verus! {

/// The keys that the launcher tells apart.
#[derive(Clone, Copy, Debug, PartialEq, Eq, Structural)]
pub enum Key {
    Up,
    Down,
    Enter,
    Escape,
    Other,
}

/// What can happen to the launcher.
#[derive(Debug, PartialEq, Eq)]
pub enum Message {
    /// The typed text is now this. The second value is the text's value as
    /// arithmetic, printed, where it has one.
    InputChanged(String, Option<String>),
    /// The candidate with this label was committed.
    Execute(String),
    KeyPressed(Key),
    /// Starting a command failed, for this reason.
    Error(String),
    /// The candidate at this place of the list was picked and is committed;
    /// the selection stays where it is.
    EntrySelected(usize),
    WheelScrolled(Wheel),
    /// An attempt to start a command has ended: with the reason of its
    /// failure, or with none where the command was started.
    Spawned(Option<String>),
}

/// A [`Message`] as plain values.
pub enum MessageView {
    InputChanged(Seq<char>, Option<Seq<char>>),
    Execute(Seq<char>),
    KeyPressed(Key),
    Error(Seq<char>),
    EntrySelected(usize),
    WheelScrolled(Wheel),
    Spawned(Option<Seq<char>>),
}

/// The text of an optional owned string.
pub open spec fn owned_text(s: Option<String>) -> Option<Seq<char>> {
    match s {
        Some(t) => Some(t@),
        None => None,
    }
}

impl View for Message {
    type V = MessageView;

    open spec fn view(&self) -> MessageView {
        match self {
            Message::InputChanged(text, answer) => MessageView::InputChanged(
                text@,
                owned_text(*answer),
            ),
            Message::Execute(label) => MessageView::Execute(label@),
            Message::KeyPressed(key) => MessageView::KeyPressed(*key),
            Message::Error(reason) => MessageView::Error(reason@),
            Message::EntrySelected(index) => MessageView::EntrySelected(*index),
            Message::WheelScrolled(wheel) => MessageView::WheelScrolled(*wheel),
            Message::Spawned(failure) => MessageView::Spawned(owned_text(*failure)),
        }
    }
}

/// What is to be done outside the launcher's state after a message.
#[derive(Debug, PartialEq, Eq)]
pub enum Effect {
    /// Nothing.
    Idle,
    /// Deliver this message next.
    Send(Message),
    /// Hand this command line to the system's command interpreter, do not wait
    /// for it, and report with [`Message::Spawned`] whether it started.
    Launch(String),
    /// End the launcher.
    Exit,
}

/// An [`Effect`] as plain values.
pub enum EffectView {
    Idle,
    Send(MessageView),
    Launch(Seq<char>),
    Exit,
}

impl View for Effect {
    type V = EffectView;

    open spec fn view(&self) -> EffectView {
        match self {
            Effect::Idle => EffectView::Idle,
            Effect::Send(message) => EffectView::Send(message@),
            Effect::Launch(command) => EffectView::Launch(command@),
            Effect::Exit => EffectView::Exit,
        }
    }
}

/// Whether a label only informs and is never run: it begins with `Answer: `.
pub open spec fn informational(label: Seq<char>) -> bool {
    has_prefix(label, answer_prefix())
}

/// What committing `label` leads to: nothing for an informational label, and
/// for any other the launch of the label as a command line.
pub open spec fn dispatched(label: Seq<char>) -> EffectView {
    if informational(label) {
        EffectView::Idle
    } else {
        EffectView::Launch(label)
    }
}

/// What the end of a launch leads to: the launcher's own end where the command
/// started, and the report of the failure where it did not.
pub open spec fn concluded(failure: Option<Seq<char>>) -> EffectView {
    match failure {
        None => EffectView::Exit,
        Some(reason) => EffectView::Send(MessageView::Error(reason)),
    }
}

/// One slot of the window.
#[derive(Debug, PartialEq, Eq)]
pub struct Slot {
    /// The label shown, empty in a slot past the end of the list.
    pub text: String,
    /// Whether the slot shows the current candidate.
    pub selected: bool,
}

/// The launcher's state as plain values.
pub struct WindowView {
    /// The settings: they are the same in every state of one launcher.
    pub config: ConfigView,
    pub input: Seq<char>,
    pub entries: Seq<Seq<char>>,
    pub candidates: Seq<Seq<char>>,
    pub selected_index: int,
    pub display_start_index: int,
}

impl WindowView {
    /// How many candidates the window shows.
    pub open spec fn max_entries(self) -> int {
        self.config.max_entries as int
    }

    /// The candidates fit the window, the selection is one of them (0 where
    /// there are none), and the window starts inside its range.
    pub open spec fn valid(self) -> bool {
        &&& self.max_entries() >= 1
        &&& self.candidates.len() <= self.max_entries()
        &&& if self.candidates.len() == 0 {
            self.selected_index == 0
        } else {
            0 <= self.selected_index < self.candidates.len()
        }
        &&& 0 <= self.display_start_index <= last_start(
            self.candidates.len() as int,
            self.max_entries(),
        )
    }

    /// The current candidate lies inside the window.
    pub open spec fn selection_visible(self) -> bool {
        self.display_start_index <= self.selected_index < self.display_start_index
            + self.max_entries()
    }

    /// The state once the typed text has become `text`: the candidates are
    /// those for the text, and the selection is back at the first of them.
    pub open spec fn with_input(self, text: Seq<char>, answer: Option<Seq<char>>) -> WindowView {
        WindowView {
            input: text,
            candidates: filtered(text, self.entries, self.max_entries(), answer),
            selected_index: 0,
            display_start_index: 0,
            ..self
        }
    }

    /// The state after a move of the selection by `delta`.
    pub open spec fn moved(self, delta: int) -> WindowView {
        if self.candidates.len() == 0 {
            self
        } else {
            let next = moved_index(self.selected_index, delta, self.candidates.len() as int);
            WindowView {
                selected_index: next,
                display_start_index: anchored_start(
                    next,
                    self.display_start_index,
                    self.max_entries(),
                ),
                ..self
            }
        }
    }

    /// The state after a turn of the wheel.
    pub open spec fn scrolled(self, wheel: Wheel) -> WindowView {
        WindowView {
            display_start_index: scrolled_start(
                self.display_start_index,
                wheel,
                self.candidates.len() as int,
                self.max_entries(),
            ),
            ..self
        }
    }

    /// What the slot `i` of the window shows: the label of the candidate that
    /// stands `i` places after the window's start, and whether it is the
    /// current one. Past the end of the list a slot is empty. A candidate
    /// with an empty label is never marked.
    pub open spec fn slot(self, i: int) -> (Seq<char>, bool) {
        let at = self.display_start_index + i;
        if 0 <= at < self.candidates.len() {
            (self.candidates[at], self.candidates[at].len() > 0 && at == self.selected_index)
        } else {
            (Seq::empty(), false)
        }
    }
}

/// The transition function: the state after `message` and what is to be done
/// outside.
pub open spec fn step(w: WindowView, message: MessageView) -> (WindowView, EffectView) {
    match message {
        MessageView::InputChanged(text, answer) => (w.with_input(text, answer), EffectView::Idle),
        MessageView::Execute(label) => (w, dispatched(label)),
        MessageView::KeyPressed(Key::Up) => (w.moved(-1), EffectView::Idle),
        MessageView::KeyPressed(Key::Down) => (w.moved(1), EffectView::Idle),
        MessageView::KeyPressed(Key::Enter) => if 0 <= w.selected_index < w.candidates.len() {
            (w, EffectView::Send(MessageView::Execute(w.candidates[w.selected_index])))
        } else {
            (w, EffectView::Idle)
        },
        MessageView::KeyPressed(Key::Escape) => (w, EffectView::Exit),
        MessageView::KeyPressed(Key::Other) => (w, EffectView::Idle),
        MessageView::Error(_) => (w, EffectView::Idle),
        MessageView::EntrySelected(index) => if index < w.candidates.len() {
            (w, EffectView::Send(MessageView::Execute(w.candidates[index as int])))
        } else {
            (w, EffectView::Idle)
        },
        MessageView::WheelScrolled(wheel) => (w.scrolled(wheel), EffectView::Idle),
        MessageView::Spawned(failure) => (w, concluded(failure)),
    }
}

/// Whether `label` only informs and is never run.
pub fn is_informational(label: &str) -> (r: bool)
    ensures
        r == informational(label@),
{
    let chars = to_chars(label);
    let prefix: [char; 8] = ['A', 'n', 's', 'w', 'e', 'r', ':', ' '];
    if chars.len() < 8 {
        return false;
    }
    let mut i: usize = 0;
    while i < 8
        invariant
            i <= 8 <= chars@.len(),
            chars@ == label@,
            prefix@ == answer_prefix(),
            forall|j: int| 0 <= j < i ==> chars@[j] == #[trigger] answer_prefix()[j],
        decreases 8 - i,
    {
        if chars[i] != prefix[i] {
            return false;
        }
        i += 1;
    }
    true
}

/// Decides what committing `label` leads to. An informational label is
/// never run.
pub fn dispatch(label: String) -> (effect: Effect)
    ensures
        effect@ == dispatched(label@),
{
    if is_informational(label.as_str()) {
        Effect::Idle
    } else {
        Effect::Launch(label)
    }
}

/// Decides what the end of a launch leads to.
pub fn conclude(failure: Option<String>) -> (effect: Effect)
    ensures
        effect@ == concluded(owned_text(failure)),
{
    match failure {
        None => Effect::Exit,
        Some(reason) => Effect::Send(Message::Error(reason)),
    }
}

/// The launcher's state.
pub struct MenuWindow {
    config: Config,
    input_value: String,
    entries: Vec<String>,
    filtered_entries: Vec<String>,
    selection: Selection,
}

impl View for MenuWindow {
    type V = WindowView;

    closed spec fn view(&self) -> WindowView {
        WindowView {
            config: self.config@,
            input: self.input_value@,
            entries: labels(self.entries@),
            candidates: labels(self.filtered_entries@),
            selected_index: self.selection.selected_index as int,
            display_start_index: self.selection.display_start_index as int,
        }
    }
}

impl MenuWindow {
    /// The state is one that the launcher can be in.
    pub open spec fn wf(&self) -> bool {
        self@.valid()
    }

    /// The launcher as it starts: nothing typed, the start of the catalog
    /// shown, its first entry selected.
    pub fn new(config: Config, entries: Vec<String>) -> (w: MenuWindow)
        requires
            config.valid(),
        ensures
            w.wf(),
            w@.config == config@,
            w@.input == Seq::<char>::empty(),
            w@.entries == labels(entries@),
            w@.candidates == labels(entries@).take(
                shown_count(entries@.len() as int, config.max_entries as int),
            ),
            w@.selected_index == 0,
            w@.display_start_index == 0,
    {
        let input_value = String::new();
        let filtered_entries = filter(input_value.as_str(), &entries, config.max_entries, None);
        MenuWindow { config, input_value, entries, filtered_entries, selection: Selection::reset() }
    }

    /// The window's title.
    pub fn title(&self) -> (t: String)
        ensures
            t@ == "5Menu"@,
    {
        String::from_str("5Menu")
    }

    /// The settings that the launcher was started with.
    pub fn config(&self) -> (c: &Config)
        ensures
            c@ == self@.config,
    {
        &self.config
    }

    pub fn max_entries(&self) -> (n: usize)
        ensures
            n == self@.max_entries(),
    {
        self.config.max_entries
    }

    pub fn input_value(&self) -> (s: &str)
        ensures
            s@ == self@.input,
    {
        self.input_value.as_str()
    }

    pub fn entries(&self) -> (v: &Vec<String>)
        ensures
            labels(v@) == self@.entries,
    {
        &self.entries
    }

    pub fn filtered_entries(&self) -> (v: &Vec<String>)
        ensures
            labels(v@) == self@.candidates,
    {
        &self.filtered_entries
    }

    pub fn selected_index(&self) -> (i: usize)
        ensures
            i == self@.selected_index,
    {
        self.selection.selected_index
    }

    pub fn display_start_index(&self) -> (i: usize)
        ensures
            i == self@.display_start_index,
    {
        self.selection.display_start_index
    }

    /// Replaces the candidates by those for the typed text and selects the
    /// first of them. `answer` is the text's value as arithmetic, printed,
    /// where it has one.
    pub fn filter_entries(&mut self, answer: Option<&str>)
        requires
            old(self).wf(),
        ensures
            final(self).wf(),
            final(self)@ == old(self)@.with_input(old(self)@.input, text_of(answer)),
    {
        proof {
            lemma_filtered_fits(
                self@.input,
                self@.entries,
                self@.max_entries(),
                text_of(answer),
            );
        }
        self.filtered_entries =
        filter(self.input_value.as_str(), &self.entries, self.config.max_entries, answer);
        self.selection = Selection::reset();
    }

    /// Moves the selection by `delta`, wrapping round at either end of the
    /// list, and brings the window back over it. Nothing moves in an empty
    /// list.
    pub fn move_selection(&mut self, delta: isize)
        requires
            old(self).wf(),
        ensures
            final(self).wf(),
            final(self)@ == old(self)@.moved(delta as int),
            final(self)@.candidates.len() > 0 ==> final(self)@.selection_visible(),
    {
        self.selection.move_by(delta, self.filtered_entries.len(), self.config.max_entries);
    }

    /// Turns the wheel by one slot: the window moves inside its range, the
    /// selection stays.
    pub fn scroll(&mut self, wheel: Wheel)
        requires
            old(self).wf(),
        ensures
            final(self).wf(),
            final(self)@ == old(self)@.scrolled(wheel),
    {
        self.selection.scroll(wheel, self.filtered_entries.len(), self.config.max_entries);
    }

    /// What the window shows: one slot for each of its `max_entries` places.
    pub fn visible_entries(&self) -> (slots: Vec<Slot>)
        requires
            self.wf(),
        ensures
            slots@.len() == self@.max_entries(),
            forall|i: int|
                0 <= i < slots@.len() ==> (#[trigger] slots@[i].text@, slots@[i].selected)
                    == self@.slot(i),
    {
        let mut slots: Vec<Slot> = Vec::new();
        let start: usize = self.selection.display_start_index;
        let len: usize = self.filtered_entries.len();
        let mut i: usize = 0;
        while i < self.config.max_entries
            invariant
                self.wf(),
                i <= self.config.max_entries,
                start == self.selection.display_start_index,
                len == self.filtered_entries@.len(),
                slots@.len() == i,
                forall|j: int|
                    0 <= j < i ==> (#[trigger] slots@[j].text@, slots@[j].selected) == self@.slot(
                        j,
                    ),
            decreases self.config.max_entries - i,
        {
            let slot = if i < len - start {
                let at: usize = start + i;
                let text = self.filtered_entries[at].clone();
                let selected = !text.as_str().is_empty() && at == self.selection.selected_index;
                Slot { text, selected }
            } else {
                Slot { text: String::new(), selected: false }
            };
            slots.push(slot);
            i += 1;
        }
        slots
    }

    /// Takes one message: changes the state as [`step`] says and returns what
    /// is to be done outside.
    pub fn update(&mut self, message: Message) -> (effect: Effect)
        requires
            old(self).wf(),
        ensures
            final(self).wf(),
            (final(self)@, effect@) == step(old(self)@, message@),
    {
        match message {
            Message::InputChanged(text, answer) => {
                self.input_value = text;
                match &answer {
                    Some(number) => self.filter_entries(Some(number.as_str())),
                    None => self.filter_entries(None),
                }
                Effect::Idle
            },
            Message::Execute(label) => dispatch(label),
            Message::KeyPressed(key) => {
                match key {
                    Key::Up => {
                        self.move_selection(-1);
                        Effect::Idle
                    },
                    Key::Down => {
                        self.move_selection(1);
                        Effect::Idle
                    },
                    Key::Enter => {
                        if self.selection.selected_index < self.filtered_entries.len() {
                            let label = self.filtered_entries[self.selection.selected_index].clone();
                            Effect::Send(Message::Execute(label))
                        } else {
                            Effect::Idle
                        }
                    },
                    Key::Escape => Effect::Exit,
                    Key::Other => Effect::Idle,
                }
            },
            Message::Error(_) => Effect::Idle,
            Message::EntrySelected(index) => {
                if index < self.filtered_entries.len() {
                    let label = self.filtered_entries[index].clone();
                    Effect::Send(Message::Execute(label))
                } else {
                    Effect::Idle
                }
            },
            Message::WheelScrolled(wheel) => {
                self.scroll(wheel);
                Effect::Idle
            },
            Message::Spawned(failure) => conclude(failure),
        }
    }
}

/// The state after a run of messages, taken one after the other.
pub open spec fn after(w: WindowView, messages: Seq<MessageView>) -> WindowView
    decreases messages.len(),
{
    if messages.len() == 0 {
        w
    } else {
        step(after(w, messages.drop_last()), messages.last()).0
    }
}

/// Every message takes a state that the launcher can be in to another such
/// state.
pub proof fn lemma_step_keeps_valid(w: WindowView, message: MessageView)
    requires
        w.valid(),
    ensures
        step(w, message).0.valid(),
{
    match message {
        MessageView::InputChanged(text, answer) => {
            lemma_filtered_fits(text, w.entries, w.max_entries(), answer);
        },
        _ => {},
    }
}

/// In every state that the launcher can be in, the current candidate lies
/// inside the window.
pub proof fn lemma_selection_is_visible(w: WindowView)
    requires
        w.valid(),
        w.candidates.len() > 0,
    ensures
        w.selection_visible(),
        w.display_start_index == 0,
{
}

/// Whatever messages arrive, and in whatever order, the launcher stays in a
/// state that it can be in, and while there are candidates the current one
/// lies inside the window.
pub proof fn lemma_selection_stays_visible(w: WindowView, messages: Seq<MessageView>)
    requires
        w.valid(),
    ensures
        after(w, messages).valid(),
        after(w, messages).candidates.len() > 0 ==> after(w, messages).selection_visible(),
    decreases messages.len(),
{
    if messages.len() > 0 {
        lemma_selection_stays_visible(w, messages.drop_last());
        lemma_step_keeps_valid(after(w, messages.drop_last()), messages.last());
    }
}

} // verus!

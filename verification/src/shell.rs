//! What the keys do while an effect is chosen, its paths and its parameter
//! are typed, and it runs: a state, and a step from state and key to the next
//! state and to what the caller has to do.

use crate::dispatch::effect_for;
use crate::dispatch::Effect;
use crate::dispatch::EffectKind;
use crate::dispatch::EFFECT_COUNT;
use crate::text::text_of;
use vstd::prelude::*;

verus! {

/// What the keys are typed into.
#[derive(Clone, Copy, Debug, PartialEq, Eq, Structural)]
pub enum InputMode {
    SelectingEffect,
    InputPath,
    OutputPath,
    Parameters,
    Processing,
}

/// A key as far as the shell tells keys apart.
#[derive(Clone, Copy, Debug, PartialEq, Eq, Structural)]
pub enum Key {
    Char(char),
    Enter,
    Esc,
    Backspace,
    Up,
    Down,
    Other,
}

/// What the caller has to do after a key.
#[derive(Clone, Copy, Debug, PartialEq, Eq, Structural)]
pub enum Command {
    /// Nothing.
    Stay,
    /// Leave the program.
    Quit,
    /// Run the effect that is selected; `from_parameters` says whether the
    /// key was pressed while the parameter was typed.
    Execute { from_parameters: bool },
    /// Press the key on the image of the open session.
    Bend(char),
    /// Save the image of the open session.
    Finish,
}

/// What is to be run when the user asks for the effect.
#[derive(Clone, Copy, Debug, PartialEq, Eq, Structural)]
pub enum Request {
    /// A path is missing; nothing runs.
    MissingPaths,
    /// There is no file at the input path; nothing runs.
    MissingInput,
    /// An effect that runs at once.
    Batch(Effect),
    /// A session in which the image is bent key by key.
    Session,
    /// Bursts of text, key by key.
    TextBurst,
    /// Bursts of noise, key by key.
    NoiseBurst,
}

/// How the run that was asked for ended.
#[derive(Clone, Copy, Debug, PartialEq, Eq, Structural)]
pub enum Outcome {
    /// Nothing ran.
    Refused,
    /// A session is open now.
    SessionOpened,
    /// No session could be opened.
    SessionFailed,
    /// The effect ran to its end.
    Finished,
}

/// Mathematical model of the shell.
pub struct ShellState {
    /// Place of the selected effect in the list.
    pub selected: nat,
    /// The path of the image to read, as typed so far.
    pub input_path: Seq<char>,
    /// The path of the image to write, as typed so far.
    pub output_path: Seq<char>,
    /// The parameter as typed so far.
    pub parameter: Seq<char>,
    /// What the keys are typed into.
    pub mode: InputMode,
    /// Whether the progress bar is shown and grows.
    pub processing: bool,
    /// Progress in percent.
    pub progress: nat,
    /// Whether a session is open in which the image is bent key by key.
    pub session_open: bool,
}

/// The effect in place `index` of the list.
pub open spec fn kind_at(index: nat) -> EffectKind {
    if index == 0 {
        EffectKind::Oversensibility
    } else if index == 1 {
        EffectKind::Overexposure
    } else if index == 2 {
        EffectKind::Synesthesia
    } else if index == 3 {
        EffectKind::VariationsOnACloud
    } else if index == 4 {
        EffectKind::TheMindElectric
    } else if index == 5 {
        EffectKind::JackStauberism
    } else {
        EffectKind::NewNormal
    }
}

/// The place after `index` in the list, the first after the last.
pub open spec fn following(index: nat) -> nat {
    if index + 1 >= EFFECT_COUNT {
        0
    } else {
        index + 1
    }
}

/// The place before `index` in the list, the last before the first.
pub open spec fn preceding(index: nat) -> nat {
    if index == 0 {
        (EFFECT_COUNT - 1) as nat
    } else {
        (index - 1) as nat
    }
}

/// The state with another effect selected: the parameter starts empty.
pub open spec fn selecting(s: ShellState, index: nat) -> ShellState {
    ShellState { selected: index, parameter: Seq::empty(), ..s }
}

/// A text after a key was typed into it.
pub open spec fn edited(text: Seq<char>, key: Key) -> Seq<char> {
    match key {
        Key::Char(c) => text.push(c),
        Key::Backspace => if text.len() > 0 {
            text.drop_last()
        } else {
            text
        },
        _ => text,
    }
}

/// Whether the key ends the typing of a path.
pub open spec fn leaves_field(key: Key) -> bool {
    key == Key::Enter || key == Key::Esc
}

/// The next state and what the caller has to do, for the state and the key.
pub open spec fn step(s: ShellState, key: Key) -> (ShellState, Command) {
    match s.mode {
        InputMode::SelectingEffect => {
            if key == Key::Esc || key == Key::Char('q') {
                (s, Command::Quit)
            } else if key == Key::Up || key == Key::Char('k') {
                (selecting(s, preceding(s.selected)), Command::Stay)
            } else if key == Key::Down || key == Key::Char('j') {
                (selecting(s, following(s.selected)), Command::Stay)
            } else if key == Key::Char('i') {
                (ShellState { mode: InputMode::InputPath, ..s }, Command::Stay)
            } else if key == Key::Char('o') {
                (ShellState { mode: InputMode::OutputPath, ..s }, Command::Stay)
            } else if key == Key::Char('p') && !kind_at(s.selected).interactive() {
                (ShellState { mode: InputMode::Parameters, ..s }, Command::Stay)
            } else if key == Key::Enter {
                (s, Command::Execute { from_parameters: false })
            } else {
                (s, Command::Stay)
            }
        },
        InputMode::InputPath => {
            if leaves_field(key) {
                (ShellState { mode: InputMode::SelectingEffect, ..s }, Command::Stay)
            } else {
                (ShellState { input_path: edited(s.input_path, key), ..s }, Command::Stay)
            }
        },
        InputMode::OutputPath => {
            if leaves_field(key) {
                (ShellState { mode: InputMode::SelectingEffect, ..s }, Command::Stay)
            } else {
                (ShellState { output_path: edited(s.output_path, key), ..s }, Command::Stay)
            }
        },
        InputMode::Parameters => {
            if key == Key::Enter {
                (s, Command::Execute { from_parameters: true })
            } else if key == Key::Esc {
                (ShellState { mode: InputMode::SelectingEffect, ..s }, Command::Stay)
            } else {
                (ShellState { parameter: edited(s.parameter, key), ..s }, Command::Stay)
            }
        },
        InputMode::Processing => {
            if s.session_open {
                match key {
                    Key::Esc => (
                        ShellState {
                            mode: InputMode::SelectingEffect,
                            processing: false,
                            session_open: false,
                            ..s
                        },
                        Command::Finish,
                    ),
                    Key::Char(c) => (s, Command::Bend(c)),
                    _ => (s, Command::Stay),
                }
            } else if key == Key::Esc {
                (ShellState { mode: InputMode::SelectingEffect, ..s }, Command::Stay)
            } else {
                (s, Command::Stay)
            }
        },
    }
}

/// What is to be run when the user asks for the selected effect;
/// `input_exists` says whether there is a file at the input path.
pub open spec fn requested(s: ShellState, input_exists: bool) -> Request {
    if s.input_path.len() == 0 || s.output_path.len() == 0 {
        Request::MissingPaths
    } else if !input_exists {
        Request::MissingInput
    } else {
        match effect_for(kind_at(s.selected), s.parameter) {
            Some(effect) => Request::Batch(effect),
            None => match kind_at(s.selected) {
                EffectKind::Synesthesia => Request::Session,
                EffectKind::JackStauberism => Request::TextBurst,
                _ => Request::NoiseBurst,
            },
        }
    }
}

/// The state after the run that was asked for: a run that ended leaves the
/// progress bar full and hidden, a session leaves it empty and growing, and a
/// run asked for while the parameter was typed leaves the shell waiting for
/// the key that puts an end to it.
pub open spec fn completed(s: ShellState, outcome: Outcome, from_parameters: bool) -> ShellState {
    let ran = match outcome {
        Outcome::Refused => s,
        Outcome::SessionOpened => ShellState {
            mode: InputMode::Processing,
            processing: true,
            progress: 0,
            session_open: true,
            ..s
        },
        Outcome::SessionFailed => ShellState { processing: true, progress: 0, ..s },
        Outcome::Finished => ShellState { processing: false, progress: 100, ..s },
    };
    if from_parameters {
        ShellState { mode: InputMode::Processing, processing: true, progress: 0, ..ran }
    } else {
        ran
    }
}

/// The state after one turn of the event loop: while the progress bar is
/// shown it grows by two percent, up to a hundred.
pub open spec fn ticked(s: ShellState) -> ShellState {
    if s.processing {
        ShellState {
            progress: if s.progress + 2 > 100 {
                100
            } else {
                s.progress + 2
            },
            ..s
        }
    } else {
        s
    }
}

/// The state of the shell between two keys.
pub struct Shell {
    selected: EffectKind,
    input_path: Vec<char>,
    output_path: Vec<char>,
    parameter: Vec<char>,
    mode: InputMode,
    processing: bool,
    progress: u8,
    session_open: bool,
}

impl View for Shell {
    type V = ShellState;

    closed spec fn view(&self) -> ShellState {
        ShellState {
            selected: self.selected.position(),
            input_path: self.input_path@,
            output_path: self.output_path@,
            parameter: self.parameter@,
            mode: self.mode,
            processing: self.processing,
            progress: self.progress as nat,
            session_open: self.session_open,
        }
    }
}

/// Types a key into a text.
fn edit(text: &mut Vec<char>, key: Key)
    ensures
        final(text)@ == edited(old(text)@, key),
{
    match key {
        Key::Char(c) => {
            text.push(c);
        },
        Key::Backspace => {
            if text.len() > 0 {
                text.pop();
            }
        },
        _ => {},
    }
}

impl Shell {
    /// The invariant of the shell: an effect of the list is selected, the
    /// progress is a percentage, and a session is open only while the shell
    /// is processing.
    pub open spec fn wf(&self) -> bool {
        &&& self@.selected < EFFECT_COUNT
        &&& self@.progress <= 100
        &&& self@.session_open ==> self@.mode == InputMode::Processing
    }

    /// The shell as it starts: the first effect selected, nothing typed.
    pub fn new() -> (shell: Shell)
        ensures
            shell.wf(),
            shell@ == (ShellState {
                selected: 0,
                input_path: Seq::empty(),
                output_path: Seq::empty(),
                parameter: Seq::empty(),
                mode: InputMode::SelectingEffect,
                processing: false,
                progress: 0,
                session_open: false,
            }),
    {
        Shell {
            selected: EffectKind::Oversensibility,
            input_path: Vec::new(),
            output_path: Vec::new(),
            parameter: Vec::new(),
            mode: InputMode::SelectingEffect,
            processing: false,
            progress: 0,
            session_open: false,
        }
    }

    /// The effect that is selected.
    pub fn selected_kind(&self) -> (kind: EffectKind)
        ensures
            kind == kind_at(self@.selected),
            kind.position() == self@.selected,
    {
        self.selected
    }

    /// Place of the selected effect in the list.
    pub fn selected_effect(&self) -> (index: usize)
        ensures
            index == self@.selected,
    {
        self.selected.index()
    }

    /// What the keys are typed into.
    pub fn mode(&self) -> (mode: InputMode)
        ensures
            mode == self@.mode,
    {
        self.mode
    }

    /// Whether the progress bar is shown and grows.
    pub fn processing(&self) -> (processing: bool)
        ensures
            processing == self@.processing,
    {
        self.processing
    }

    /// Progress in percent.
    pub fn progress(&self) -> (progress: u8)
        ensures
            progress == self@.progress,
    {
        self.progress
    }

    /// Whether a session is open in which the image is bent key by key.
    pub fn session_open(&self) -> (open: bool)
        ensures
            open == self@.session_open,
    {
        self.session_open
    }

    /// The path of the image to read, as typed so far.
    pub fn input_path(&self) -> (path: String)
        ensures
            path@ == self@.input_path,
    {
        text_of(&self.input_path)
    }

    /// The path of the image to write, as typed so far.
    pub fn output_path(&self) -> (path: String)
        ensures
            path@ == self@.output_path,
    {
        text_of(&self.output_path)
    }

    /// The parameter as typed so far.
    pub fn parameter(&self) -> (text: String)
        ensures
            text@ == self@.parameter,
    {
        text_of(&self.parameter)
    }

    /// Selects the effect that follows in the list, the first after the
    /// last, with an empty parameter.
    pub fn next_effect(&mut self)
        requires
            old(self).wf(),
        ensures
            final(self).wf(),
            final(self)@ == selecting(old(self)@, following(old(self)@.selected)),
    {
        self.selected = self.selected.following();
        self.update_params();
    }

    /// Selects the effect that comes before in the list, the last before the
    /// first, with an empty parameter.
    pub fn previous_effect(&mut self)
        requires
            old(self).wf(),
        ensures
            final(self).wf(),
            final(self)@ == selecting(old(self)@, preceding(old(self)@.selected)),
    {
        self.selected = self.selected.preceding();
        self.update_params();
    }

    /// Empties the parameter, for the effect that is selected now.
    pub fn update_params(&mut self)
        ensures
            final(self)@ == selecting(old(self)@, old(self)@.selected),
    {
        self.parameter = Vec::new();
    }

    /// Takes one key and says what the caller has to do.
    pub fn on_key(&mut self, key: Key) -> (command: Command)
        requires
            old(self).wf(),
        ensures
            final(self).wf(),
            (final(self)@, command) == step(old(self)@, key),
    {
        match self.mode {
            InputMode::SelectingEffect => {
                match key {
                    Key::Esc => Command::Quit,
                    Key::Up => {
                        self.previous_effect();
                        Command::Stay
                    },
                    Key::Down => {
                        self.next_effect();
                        Command::Stay
                    },
                    Key::Enter => Command::Execute { from_parameters: false },
                    Key::Char(c) => {
                        if c == 'q' {
                            Command::Quit
                        } else if c == 'k' {
                            self.previous_effect();
                            Command::Stay
                        } else if c == 'j' {
                            self.next_effect();
                            Command::Stay
                        } else if c == 'i' {
                            self.mode = InputMode::InputPath;
                            Command::Stay
                        } else if c == 'o' {
                            self.mode = InputMode::OutputPath;
                            Command::Stay
                        } else if c == 'p' && !self.selected.is_interactive() {
                            self.mode = InputMode::Parameters;
                            Command::Stay
                        } else {
                            Command::Stay
                        }
                    },
                    _ => Command::Stay,
                }
            },
            InputMode::InputPath => {
                match key {
                    Key::Enter | Key::Esc => {
                        self.mode = InputMode::SelectingEffect;
                    },
                    _ => {
                        edit(&mut self.input_path, key);
                    },
                }
                Command::Stay
            },
            InputMode::OutputPath => {
                match key {
                    Key::Enter | Key::Esc => {
                        self.mode = InputMode::SelectingEffect;
                    },
                    _ => {
                        edit(&mut self.output_path, key);
                    },
                }
                Command::Stay
            },
            InputMode::Parameters => {
                match key {
                    Key::Enter => Command::Execute { from_parameters: true },
                    Key::Esc => {
                        self.mode = InputMode::SelectingEffect;
                        Command::Stay
                    },
                    _ => {
                        edit(&mut self.parameter, key);
                        Command::Stay
                    },
                }
            },
            InputMode::Processing => {
                if self.session_open {
                    match key {
                        Key::Esc => {
                            self.session_open = false;
                            self.mode = InputMode::SelectingEffect;
                            self.processing = false;
                            Command::Finish
                        },
                        Key::Char(c) => Command::Bend(c),
                        _ => Command::Stay,
                    }
                } else {
                    match key {
                        Key::Esc => {
                            self.mode = InputMode::SelectingEffect;
                        },
                        _ => {},
                    }
                    Command::Stay
                }
            },
        }
    }

    /// Whether both paths were given.
    pub fn paths_given(&self) -> (given: bool)
        ensures
            given == (self@.input_path.len() > 0 && self@.output_path.len() > 0),
    {
        self.input_path.len() > 0 && self.output_path.len() > 0
    }

    /// What is to be run now that the user asked for the selected effect;
    /// `input_exists` says whether there is a file at the input path.
    pub fn request(&self, input_exists: bool) -> (request: Request)
        requires
            self.wf(),
        ensures
            request == requested(self@, input_exists),
    {
        if !self.paths_given() {
            return Request::MissingPaths;
        }
        if !input_exists {
            return Request::MissingInput;
        }
        let text: String = text_of(&self.parameter);
        match Effect::from_input(self.selected, text.as_str()) {
            Some(effect) => Request::Batch(effect),
            None => match self.selected {
                EffectKind::Synesthesia => Request::Session,
                EffectKind::JackStauberism => Request::TextBurst,
                _ => Request::NoiseBurst,
            },
        }
    }

    /// Takes note of how the run ended that the user asked for.
    pub fn complete(&mut self, outcome: Outcome, from_parameters: bool)
        requires
            old(self).wf(),
        ensures
            final(self).wf(),
            final(self)@ == completed(old(self)@, outcome, from_parameters),
    {
        match outcome {
            Outcome::Refused => {},
            Outcome::SessionOpened => {
                self.mode = InputMode::Processing;
                self.processing = true;
                self.progress = 0;
                self.session_open = true;
            },
            Outcome::SessionFailed => {
                self.processing = true;
                self.progress = 0;
            },
            Outcome::Finished => {
                self.processing = false;
                self.progress = 100;
            },
        }
        if from_parameters {
            self.mode = InputMode::Processing;
            self.processing = true;
            self.progress = 0;
        }
    }

    /// One turn of the event loop has passed.
    pub fn tick(&mut self)
        requires
            old(self).wf(),
        ensures
            final(self).wf(),
            final(self)@ == ticked(old(self)@),
    {
        if self.processing {
            if self.progress >= 98 {
                self.progress = 100;
            } else {
                self.progress = self.progress + 2;
            }
        }
    }
}

} // verus!

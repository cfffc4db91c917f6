//! The console's state machines: what a key does to the editor, the song
//! table and the application, and which command it sends to the audio side.
use vstd::prelude::*;
use vstd::view::View as _;

use self::input::Editor;
use self::library::Library;
use crate::audio::{AudioCommand, AudioEvent, StreamStatus};
use crate::event::Event;
use crate::library_data::built_in;
use crate::scope::Scope;
use std::sync::atomic::AtomicI32;
use crate::parser::{compiled, ASTNode, Beat, NodeId, ParseError, Spanned};

pub mod dynatable;
pub mod input;
pub mod library;

verus! {

/// A key of the terminal, as far as the console tells keys apart.
#[derive(Debug, PartialEq, Eq, Clone, Copy, Structural)]
pub enum Key {
    Backspace,
    Enter,
    Left,
    Right,
    Up,
    Down,
    PageUp,
    PageDown,
    Esc,
    /// A function key, by its number.
    F(u8),
    Char(char),
    /// Any key that the console does not act on.
    Other,
}

/// What a part of the console asks of the application.
#[derive(Debug)]
pub enum AppEvent {
    /// Compile this source and play it.
    InputReady(String),
    /// Put this source into the editor, then compile and play it.
    BeatOverwrite(String),
}

/// One press of a key, with whether Control was held.
#[derive(Debug, PartialEq, Eq, Clone, Copy, Structural)]
pub struct KeyPress {
    pub code: Key,
    pub ctrl: bool,
}

impl KeyPress {
    pub fn new(code: Key, ctrl: bool) -> (k: KeyPress)
        ensures
            k == (KeyPress { code, ctrl }),
    {
        KeyPress { code, ctrl }
    }
}

/// Which part of the console has the screen.
#[derive(Debug, Clone, Copy, PartialEq, Eq, Structural)]
pub enum View {
    /// The scope, a short log and the editor.
    Main,
    /// The log alone.
    BigLog,
    /// The song browser.
    Library,
}

impl Default for View {
    fn default() -> (view: View)
        ensures
            view == View::Main,
    {
        View::Main
    }
}

/// What the console asks of the audio side after a key.
#[derive(Debug)]
pub enum UiCommand {
    StreamPlay,
    StreamPause,
    /// One step louder.
    VolumeUp,
    /// One step quieter.
    VolumeDown,
    NewBeat(Beat),
}

/// The plain state of the console.
#[derive(Clone, Copy, PartialEq, Eq, Structural)]
pub struct Flags {
    /// Cleared to leave the main loop.
    pub running: bool,
    /// Whether the stream is meant to be paused. It is set when the command
    /// is sent, without waiting for the stream to follow.
    pub paused: bool,
    /// The state of the stream as last reported.
    pub audio_state: StreamStatus,
    pub view: View,
    pub show_help: bool,
}

/// Compiles `source` into the command that plays it, or into the errors it
/// holds. No command comes of a source with an error.
pub fn new_beat<V>(source: &str) -> (r: Result<AudioCommand<V>, Vec<Spanned<ParseError>>>)
    ensures
        match r {
            Ok(command) => command is NewBeat && compiled(source@) == Ok::<
                _,
                Seq<Spanned<ParseError>>,
            >((command->NewBeat_0.arena(), command->NewBeat_0.root_id())),
            Err(errors) => compiled(source@) == Err::<(Seq<ASTNode>, NodeId), _>(errors@)
                && errors@.len() > 0,
        },
{
    match Beat::compile(source) {
        Ok(beat) => Ok(AudioCommand::NewBeat(beat)),
        Err(errors) => Err(errors),
    }
}

/// Submitting `source` gives `command` and leaves `errors` below the line:
/// a source that compiles gives its beat and no error; any other gives no
/// command and its errors.
pub open spec fn submitted(
    source: Seq<char>,
    command: Option<UiCommand>,
    errors: Seq<Spanned<ParseError>>,
) -> bool {
    match compiled(source) {
        Ok((arena, root)) => {
            &&& command is Some
            &&& command->0 is NewBeat
            &&& command->0->NewBeat_0.arena() == arena
            &&& command->0->NewBeat_0.root_id() == root
            &&& errors.len() == 0
        },
        Err(found) => command is None && errors == found,
    }
}

/// The console: what is shown, what is meant to play, the editor, the song
/// browser and the scope.
pub struct App {
    running: bool,
    // As we wish it.
    paused: bool,
    // May be streaming or paused, but also other things too
    audio_state: StreamStatus,
    view: View,
    show_help: bool,
    editor: Editor,
    library: Library,
    scope: Scope,
}

impl App {
    /// The plain state.
    pub closed spec fn flags(&self) -> Flags {
        Flags {
            running: self.running,
            paused: self.paused,
            audio_state: self.audio_state,
            view: self.view,
            show_help: self.show_help,
        }
    }

    /// The editor.
    pub closed spec fn editor(&self) -> Editor {
        self.editor
    }

    /// The song browser.
    pub closed spec fn browser(&self) -> Library {
        self.library
    }

    /// The scope.
    pub closed spec fn scope(&self) -> Scope {
        self.scope
    }

    /// The editor, the song browser and the scope are well-formed.
    pub open spec fn wf(&self) -> bool {
        self.editor().wf() && self.browser().wf() && self.scope().wf()
    }

    /// `after` differs from this console in its plain state at most.
    pub open spec fn same_parts(&self, after: App) -> bool {
        &&& after.editor() == self.editor()
        &&& after.browser() == self.browser()
        &&& after.scope() == self.scope()
    }

    /// Submitting `source` from this console leads to `after`: the source
    /// of the editor stays, its errors are those of `source`, and `command`
    /// is the beat if there is none.
    pub open spec fn submits(&self, source: Seq<char>, after: App, command: Option<UiCommand>) -> bool {
        &&& self.editor().same_source(after.editor())
        &&& submitted(source, command, after.editor().shown_errors())
    }

    /// What a key does to the console: `after` is the console then and
    /// `command` what goes to the audio side.
    ///
    /// F1 shows or hides the help, F2 shows the log, F3 quits, F4 plays or
    /// pauses, F5 shows the song browser; Esc hides the help if it shows,
    /// else goes back to the main view. Up and Down change the volume.
    /// These keys do the same in every view. While the help shows, no
    /// other key does anything. In the main view Enter submits the source
    /// of the editor and other keys edit it. In the song browser the other
    /// keys go to the browser: a song it asks to overwrite with replaces
    /// the source of the editor and is submitted; a song it asks to play
    /// is submitted beside the editor.
    pub open spec fn key_effect(&self, event: KeyPress, after: App, command: Option<UiCommand>) -> bool {
        let was = self.flags();
        &&& after.scope() == self.scope()
        &&& match event.code {
            Key::F(1) => {
                &&& after.flags() == Flags { show_help: !was.show_help, ..was }
                &&& self.same_parts(after)
                &&& command is None
            },
            Key::F(2) => {
                &&& after.flags() == Flags { view: View::BigLog, ..was }
                &&& self.same_parts(after)
                &&& command is None
            },
            Key::F(3) => {
                &&& after.flags() == Flags { running: false, ..was }
                &&& self.same_parts(after)
                &&& command is None
            },
            Key::F(4) => {
                &&& after.flags() == Flags { paused: !was.paused, ..was }
                &&& self.same_parts(after)
                &&& if was.paused {
                    command is Some && command->0 is StreamPlay
                } else {
                    command is Some && command->0 is StreamPause
                }
            },
            Key::F(5) => {
                &&& after.flags() == Flags { view: View::Library, ..was }
                &&& self.same_parts(after)
                &&& command is None
            },
            Key::Esc => {
                &&& after.flags() == if was.show_help {
                    Flags { show_help: false, ..was }
                } else {
                    Flags { view: View::Main, ..was }
                }
                &&& self.same_parts(after)
                &&& command is None
            },
            Key::Up => {
                &&& after.flags() == was
                &&& self.same_parts(after)
                &&& command is Some && command->0 is VolumeUp
            },
            Key::Down => {
                &&& after.flags() == was
                &&& self.same_parts(after)
                &&& command is Some && command->0 is VolumeDown
            },
            _ => {
                &&& after.flags() == was
                &&& if was.show_help || was.view == View::BigLog {
                    self.same_parts(after) && command is None
                } else if was.view == View::Main {
                    &&& after.browser() == self.browser()
                    &&& if event.code == Key::Enter {
                        self.submits(self.editor().text(), after, command)
                    } else {
                        command is None && self.editor().key_effect(event, after.editor())
                    }
                } else {
                    exists|asked: Option<AppEvent>|
                        {
                            &&& #[trigger] self.browser().key_effect(event, after.browser(), asked)
                            &&& match asked {
                                None => after.editor() == self.editor() && command is None,
                                Some(AppEvent::InputReady(source)) => self.submits(
                                    source@,
                                    after,
                                    command,
                                ),
                                Some(AppEvent::BeatOverwrite(source)) => {
                                    &&& after.editor().text() == source@
                                    &&& submitted(source@, command, after.editor().shown_errors())
                                    &&& match (self.editor(), after.editor()) {
                                        (Editor::Line(_), Editor::Line(b)) => b.line().cursor()
                                            == source@.len(),
                                        (Editor::File(_), Editor::File(_)) => true,
                                        _ => false,
                                    }
                                },
                            }
                        }
                }
            },
        }
    }

    /// What an event does to the console. A key acts as `key_effect` says.
    /// A report of the audio side is taken as the state of the stream. A
    /// tick lets the scope take what waits in the ring and plot what is
    /// due. A change of the watched file is taken in by the editor of a
    /// file, which then submits what the file holds.
    pub open spec fn event_effect(&self, event: Event, after: App, command: Option<UiCommand>) -> bool {
        match event {
            Event::Key(key) => self.key_effect(key, after, command),
            Event::Audio(AudioEvent::StateChange(status)) => {
                &&& after.flags() == Flags { audio_state: status, ..self.flags() }
                &&& self.same_parts(after)
                &&& command is None
            },
            Event::Tick => {
                &&& after.flags() == self.flags()
                &&& after.editor() == self.editor()
                &&& after.browser() == self.browser()
                &&& command is None
                &&& exists|play_head: i32, taken: Seq<u8>| #[trigger]
                    self.scope().ticked(after.scope(), play_head, taken)
            },
            Event::FileWatch(contents) => {
                &&& after.flags() == self.flags()
                &&& after.browser() == self.browser()
                &&& after.scope() == self.scope()
                &&& match self.editor() {
                    Editor::Line(_) => after.editor() == self.editor() && command is None,
                    Editor::File(_) => {
                        &&& after.editor() is File
                        &&& after.editor().text() == contents@
                        &&& submitted(contents@, command, after.editor().shown_errors())
                    },
                }
            },
            Event::Ignored => {
                &&& after.flags() == self.flags()
                &&& self.same_parts(after)
                &&& command is None
            },
        }
    }

    /// A console that runs, on the main view, paused, with the given editor
    /// and a scope that reads from `consumer`.
    pub fn new(editor: Editor, consumer: rtrb::Consumer<u8>) -> (app: App)
        requires
            editor.wf(),
        ensures
            app.wf(),
            app.flags() == (Flags {
                running: true,
                paused: true,
                audio_state: StreamStatus::Unconnected,
                view: View::Main,
                show_help: false,
            }),
            app.editor() == editor,
            app.scope().ring() == consumer,
            app.scope().chart().len() == 0,
            app.scope().waiting().len() == 0,
            app.scope().head() == -1,
            app.browser().song_list() == built_in(),
            app.browser().table().selection() is None,
            app.browser().table().page() == 0,
    {
        App {
            running: true,
            paused: true,
            audio_state: StreamStatus::Unconnected,
            view: View::Main,
            show_help: false,
            editor,
            library: Library::new(),
            scope: Scope::new(consumer),
        }
    }

    /// Acts on an event. `t_play` is the counter that holds the play head.
    pub fn update(&mut self, event: Event, t_play: &AtomicI32) -> (command: Option<UiCommand>)
        requires
            old(self).wf(),
        ensures
            final(self).wf(),
            old(self).event_effect(event, *final(self), command),
    {
        match event {
            Event::Key(key) => self.handle_key_event(key),
            Event::Audio(AudioEvent::StateChange(status)) => {
                self.audio_state = status;
                None
            },
            Event::Tick => {
                self.tick(t_play);
                None
            },
            Event::FileWatch(contents) => {
                let ghost text = contents@;
                let source = contents.clone();
                if self.editor.handle_file_event(contents) {
                    self.try_beat(source.as_str())
                } else {
                    None
                }
            },
            Event::Ignored => None,
        }
    }

    /// Fires on every tick: updates the scope with any new samples.
    fn tick(&mut self, t_play: &AtomicI32)
        requires
            old(self).wf(),
        ensures
            final(self).wf(),
            final(self).flags() == old(self).flags(),
            final(self).editor() == old(self).editor(),
            final(self).browser() == old(self).browser(),
            exists|play_head: i32, taken: Seq<u8>| #[trigger]
                old(self).scope().ticked(final(self).scope(), play_head, taken),
    {
        self.scope.update(t_play);
    }

    /// Acts on a key press.
    pub fn handle_key_event(&mut self, event: KeyPress) -> (command: Option<UiCommand>)
        requires
            old(self).wf(),
        ensures
            final(self).wf(),
            old(self).key_effect(event, *final(self), command),
    {
        // Global keys
        let command = match event.code {
            Key::F(1) => {
                self.show_help = !self.show_help;
                None
            },
            Key::F(2) => {
                self.view = View::BigLog;
                None
            },
            Key::F(3) => {
                self.quit();
                None
            },
            Key::F(4) => Some(self.toggle_playback()),
            Key::F(5) => {
                self.view = View::Library;
                None
            },
            Key::Esc => {
                if self.show_help {
                    self.show_help = false;
                } else {
                    self.view = View::Main;
                }
                None
            },
            Key::Up => Some(UiCommand::VolumeUp),
            Key::Down => Some(UiCommand::VolumeDown),
            // View-specific keys
            _ => {
                if self.show_help {
                    // the help swallows them
                    None
                } else {
                    match self.view {
                        View::Main => match event.code {
                            Key::Enter => {
                                let source = self.editor.current_source();
                                self.try_beat(source.as_str())
                            },
                            _ => {
                                self.editor.handle_key_event(event);
                                None
                            },
                        },
                        View::Library => {
                            let asked = self.library.handle_key_event(event);
                            let ghost request = asked;
                            let c = match asked {
                                Some(AppEvent::BeatOverwrite(source)) => {
                                    self.editor.overwrite(source.as_str());
                                    self.try_beat(source.as_str())
                                },
                                Some(AppEvent::InputReady(source)) => self.try_beat(
                                    source.as_str(),
                                ),
                                None => None,
                            };
                            assert(old(self).browser().key_effect(
                                event,
                                self.browser(),
                                request,
                            ));
                            c
                        },
                        View::BigLog => None,
                    }
                }
            },
        };
        command
    }

    /// Sync with actual stream state absolutely not guaranteed.
    fn toggle_playback(&mut self) -> (command: UiCommand)
        ensures
            old(self).same_parts(*final(self)),
            final(self).flags() == (Flags {
                paused: !old(self).flags().paused,
                ..old(self).flags()
            }),
            (command is StreamPlay) == old(self).flags().paused,
            (command is StreamPause) == !old(self).flags().paused,
    {
        if self.paused {
            self.paused = false;
            UiCommand::StreamPlay
        } else {
            self.paused = true;
            UiCommand::StreamPause
        }
    }

    /// Try-compile and play new are one operation from the user's
    /// perspective
    fn try_beat(&mut self, source: &str) -> (command: Option<UiCommand>)
        requires
            old(self).wf(),
        ensures
            final(self).wf(),
            final(self).flags() == old(self).flags(),
            final(self).browser() == old(self).browser(),
            final(self).scope() == old(self).scope(),
            old(self).submits(source@, *final(self), command),
    {
        match Beat::compile(source) {
            Ok(beat) => {
                self.editor.clear_errors();
                Some(UiCommand::NewBeat(beat))
            },
            Err(errors) => {
                self.editor.set_errors(errors);
                None
            },
        }
    }

    /// Causes break and clean exit on the next turn of the main loop.
    fn quit(&mut self)
        ensures
            old(self).same_parts(*final(self)),
            final(self).flags() == (Flags { running: false, ..old(self).flags() }),
    {
        self.running = false;
    }

    /// Whether the main loop is to go on.
    pub fn is_running(&self) -> (b: bool)
        ensures
            b == self.flags().running,
    {
        self.running
    }

    /// Whether the stream is meant to be paused.
    pub fn is_paused(&self) -> (b: bool)
        ensures
            b == self.flags().paused,
    {
        self.paused
    }

    /// The state of the stream as last reported.
    pub fn audio_state(&self) -> (status: StreamStatus)
        ensures
            status == self.flags().audio_state,
    {
        self.audio_state
    }

    /// Which part of the console has the screen.
    pub fn current_view(&self) -> (view: View)
        ensures
            view == self.flags().view,
    {
        self.view
    }

    /// Whether the help shows.
    pub fn shows_help(&self) -> (b: bool)
        ensures
            b == self.flags().show_help,
    {
        self.show_help
    }

    /// The editor.
    pub fn beat_input(&self) -> (editor: &Editor)
        ensures
            *editor == self.editor(),
    {
        &self.editor
    }

    /// The song browser.
    pub fn library(&self) -> (library: &Library)
        ensures
            *library == self.browser(),
    {
        &self.library
    }

    /// The scope.
    pub fn scope_feed(&self) -> (scope: &Scope)
        ensures
            *scope == self.scope(),
    {
        &self.scope
    }

    /// Lets the song browser take in the height it has, before it is drawn.
    pub fn sync_library(&mut self, usable_height: u16, row_height: u16)
        requires
            old(self).wf(),
        ensures
            final(self).wf(),
            final(self).flags() == old(self).flags(),
            final(self).editor() == old(self).editor(),
            final(self).scope() == old(self).scope(),
            final(self).browser().song_list() == old(self).browser().song_list(),
            old(self).browser().table().synced(
                usable_height,
                old(self).browser().song_list().len() as usize,
                row_height,
                final(self).browser().table(),
            ),
    {
        self.library.sync(usable_height, row_height);
    }
}

} // verus!

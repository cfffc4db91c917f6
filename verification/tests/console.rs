use std::sync::atomic::AtomicI32;

use bytebeat::audio::{AudioEvent, StreamStatus};
use bytebeat::event::Event;
use bytebeat::parser::{Beat, ParseError, Span, Spanned};
use bytebeat::ui::input::{BeatInput, Editor, FileInput};
use bytebeat::ui::{App, Key, KeyPress, UiCommand, View};

static T_PLAY: AtomicI32 = AtomicI32::new(0);

fn press(code: Key) -> KeyPress {
    KeyPress::new(code, false)
}

fn console(source: &str) -> (App, rtrb::Producer<u8>) {
    let (producer, consumer) = rtrb::RingBuffer::<u8>::new(64);
    (
        App::new(Editor::Line(BeatInput::from_str(source)), consumer),
        producer,
    )
}

fn watching(source: &str) -> (App, rtrb::Producer<u8>) {
    let (producer, consumer) = rtrb::RingBuffer::<u8>::new(64);
    (
        App::new(Editor::File(FileInput::from_str(source)), consumer),
        producer,
    )
}

fn same_beat(command: Option<UiCommand>, code: &str) {
    let expected = Beat::compile(code).unwrap();
    match command {
        Some(UiCommand::NewBeat(beat)) => {
            assert_eq!(beat.nodes(), expected.nodes());
            assert_eq!(beat.root(), expected.root());
        }
        other => panic!("expected the beat of {:?}, got {:?}", code, other),
    }
}

#[test]
fn a_new_console_runs_paused_on_the_main_view() {
    let (app, _p) = console("t*(42&t>>10)");
    assert!(app.is_running());
    assert!(app.is_paused());
    assert_eq!(app.audio_state(), StreamStatus::Unconnected);
    assert_eq!(app.current_view(), View::Main);
    assert_eq!(View::default(), View::Main);
    assert!(!app.shows_help());
    assert_eq!(app.beat_input().current_source(), "t*(42&t>>10)");
    assert!(app.beat_input().errors().is_empty());
    assert!(app.library().selected_song().is_none());
    assert_eq!(app.scope_feed().backlog(), 0);
}

#[test]
fn f4_plays_and_pauses() {
    let (mut app, _p) = console("t");
    assert!(matches!(
        app.handle_key_event(press(Key::F(4))),
        Some(UiCommand::StreamPlay)
    ));
    // the wish changes at once, whatever the stream does
    assert!(!app.is_paused());
    assert_eq!(app.audio_state(), StreamStatus::Unconnected);
    assert!(matches!(
        app.handle_key_event(press(Key::F(4))),
        Some(UiCommand::StreamPause)
    ));
    assert!(app.is_paused());
}

#[test]
fn function_keys_change_the_view() {
    let (mut app, _p) = console("t");
    assert!(app.handle_key_event(press(Key::F(2))).is_none());
    assert_eq!(app.current_view(), View::BigLog);
    assert!(app.handle_key_event(press(Key::F(5))).is_none());
    assert_eq!(app.current_view(), View::Library);
    assert!(app.handle_key_event(press(Key::Esc)).is_none());
    assert_eq!(app.current_view(), View::Main);
    assert!(app.handle_key_event(press(Key::Esc)).is_none());
    assert_eq!(app.current_view(), View::Main);
    // other function keys do nothing
    assert!(app.handle_key_event(press(Key::F(6))).is_none());
    assert!(app.handle_key_event(press(Key::F(0))).is_none());
    assert_eq!(app.current_view(), View::Main);
    assert!(app.is_running());
}

#[test]
fn f1_toggles_the_help_and_esc_dismisses_it() {
    let (mut app, _p) = console("t");
    app.handle_key_event(press(Key::F(5)));
    app.handle_key_event(press(Key::F(1)));
    assert!(app.shows_help());
    app.handle_key_event(press(Key::F(1)));
    assert!(!app.shows_help());
    app.handle_key_event(press(Key::F(1)));
    // Esc hides the help and leaves the view
    app.handle_key_event(press(Key::Esc));
    assert!(!app.shows_help());
    assert_eq!(app.current_view(), View::Library);
    app.handle_key_event(press(Key::Esc));
    assert_eq!(app.current_view(), View::Main);
}

#[test]
fn the_help_swallows_other_keys() {
    let (mut app, _p) = console("t");
    app.handle_key_event(press(Key::F(1)));
    assert!(app.handle_key_event(press(Key::Char('1'))).is_none());
    assert!(app.handle_key_event(press(Key::Enter)).is_none());
    assert!(app.handle_key_event(press(Key::Backspace)).is_none());
    assert_eq!(app.beat_input().current_source(), "t");
    // the global keys still work
    assert!(matches!(
        app.handle_key_event(press(Key::Up)),
        Some(UiCommand::VolumeUp)
    ));
    assert!(matches!(
        app.handle_key_event(press(Key::F(4))),
        Some(UiCommand::StreamPlay)
    ));
    app.handle_key_event(press(Key::F(3)));
    assert!(!app.is_running());
}

#[test]
fn f3_quits() {
    let (mut app, _p) = console("t");
    assert!(app.handle_key_event(press(Key::F(3))).is_none());
    assert!(!app.is_running());
    assert_eq!(app.current_view(), View::Main);
    assert!(app.is_paused());
}

#[test]
fn up_and_down_change_the_volume() {
    let (mut app, _p) = console("t");
    for _ in 0..2 {
        assert!(matches!(
            app.handle_key_event(press(Key::Up)),
            Some(UiCommand::VolumeUp)
        ));
        assert!(matches!(
            app.handle_key_event(press(Key::Down)),
            Some(UiCommand::VolumeDown)
        ));
        app.handle_key_event(press(Key::F(2)));
    }
    assert_eq!(app.beat_input().current_source(), "t");
}

#[test]
fn the_main_view_edits_and_submits() {
    let (mut app, _p) = console("t");
    for c in ['>', '>', '4'] {
        assert!(app.handle_key_event(press(Key::Char(c))).is_none());
    }
    assert_eq!(app.beat_input().current_source(), "t>>4");
    same_beat(app.handle_key_event(press(Key::Enter)), "t>>4");
    assert!(app.beat_input().errors().is_empty());
    assert_eq!(app.beat_input().current_source(), "t>>4");

    app.handle_key_event(press(Key::Backspace));
    assert_eq!(app.beat_input().current_source(), "t>>");
    // a source with an error gives no command and shows the error
    assert!(app.handle_key_event(press(Key::Enter)).is_none());
    assert_eq!(
        app.beat_input().errors(),
        &vec![Spanned::new(ParseError::UnexpectedEof, Span::new(0, 3, 3))]
    );
    assert_eq!(app.beat_input().height_hint(), 4);
    // a source that compiles clears it again
    app.handle_key_event(press(Key::Char('1')));
    same_beat(app.handle_key_event(press(Key::Enter)), "t>>1");
    assert!(app.beat_input().errors().is_empty());
}

#[test]
fn the_log_view_swallows_keys() {
    let (mut app, _p) = console("t");
    app.handle_key_event(press(Key::F(2)));
    assert!(app.handle_key_event(press(Key::Char('1'))).is_none());
    assert!(app.handle_key_event(press(Key::Enter)).is_none());
    assert!(app.handle_key_event(press(Key::Left)).is_none());
    assert_eq!(app.beat_input().current_source(), "t");
}

#[test]
fn the_song_browser_previews_and_overwrites() {
    let (mut app, _p) = console("t");
    app.handle_key_event(press(Key::F(5)));
    app.sync_library(20, 1);
    // Up and Down change the volume here too, and select nothing
    assert!(matches!(
        app.handle_key_event(press(Key::Down)),
        Some(UiCommand::VolumeDown)
    ));
    assert!(matches!(
        app.handle_key_event(press(Key::Up)),
        Some(UiCommand::VolumeUp)
    ));
    assert!(app.library().selected_song().is_none());
    assert_eq!(app.beat_input().current_source(), "t");
    // a key selects a row
    assert!(matches!(
        app.handle_key_event(press(Key::Char('0'))),
        Some(UiCommand::NewBeat(_))
    ));
    assert_eq!(
        app.library().selected_song().unwrap().name,
        "the 42 melody"
    );
    // a key plays a song and leaves the editor alone
    same_beat(
        app.handle_key_event(press(Key::Char('4'))),
        "100*((t<<2|t>>5|t^63)&(t<<10|t>>11))",
    );
    assert_eq!(app.beat_input().current_source(), "t");
    // Enter puts the song into the editor
    same_beat(
        app.handle_key_event(press(Key::Enter)),
        "100*((t<<2|t>>5|t^63)&(t<<10|t>>11))",
    );
    assert_eq!(
        app.beat_input().current_source(),
        "100*((t<<2|t>>5|t^63)&(t<<10|t>>11))"
    );
    assert_eq!(app.current_view(), View::Library);
    // paging
    app.sync_library(3, 1);
    assert!(app.handle_key_event(press(Key::PageDown)).is_none());
    assert_eq!(app.library().table_state().current_page(), 1);
    assert!(app.handle_key_event(press(Key::Left)).is_none());
    assert_eq!(app.library().table_state().current_page(), 0);
    // with nothing selected Enter does nothing
    assert!(app.handle_key_event(press(Key::Enter)).is_none());
}

#[test]
fn update_takes_in_audio_events_and_ticks() {
    let (mut app, mut producer) = console("t");
    for status in [
        StreamStatus::Connecting,
        StreamStatus::Paused,
        StreamStatus::Streaming,
        StreamStatus::Error,
    ] {
        assert!(app
            .update(Event::Audio(AudioEvent::StateChange(status)), &T_PLAY)
            .is_none());
        assert_eq!(app.audio_state(), status);
    }
    assert!(app.is_paused());

    for v in [3u8, 4, 5] {
        producer.push(v).unwrap();
    }
    assert!(app.update(Event::Tick, &T_PLAY).is_none());
    let plotted: Vec<(i32, u8)> = app.scope_feed().points().iter().copied().collect();
    assert_eq!(plotted, vec![(0, 3)]);
    assert_eq!(app.scope_feed().backlog(), 2);

    assert!(app.update(Event::Ignored, &T_PLAY).is_none());
    assert!(matches!(
        app.update(Event::Key(press(Key::F(4))), &T_PLAY),
        Some(UiCommand::StreamPlay)
    ));
    assert!(!app.is_paused());
}

#[test]
fn a_line_ignores_the_watched_file() {
    let (mut app, _p) = console("t");
    assert!(app
        .update(Event::FileWatch("t*2".to_string()), &T_PLAY)
        .is_none());
    assert_eq!(app.beat_input().current_source(), "t");
}

#[test]
fn a_watched_file_is_submitted_when_it_changes() {
    let (mut app, _p) = watching("t");
    same_beat(
        app.update(Event::FileWatch("t*2".to_string()), &T_PLAY),
        "t*2",
    );
    assert_eq!(app.beat_input().current_source(), "t*2");
    assert!(app
        .update(Event::FileWatch("t*".to_string()), &T_PLAY)
        .is_none());
    assert_eq!(app.beat_input().current_source(), "t*");
    assert_eq!(app.beat_input().errors().len(), 1);
    // keys do not edit it, Enter submits what it holds
    assert!(app.handle_key_event(press(Key::Char('3'))).is_none());
    assert_eq!(app.beat_input().current_source(), "t*");
    assert!(app.handle_key_event(press(Key::Enter)).is_none());
    same_beat(
        app.update(Event::FileWatch("t*3".to_string()), &T_PLAY),
        "t*3",
    );
    assert!(app.beat_input().errors().is_empty());
}

#[test]
fn global_keys_do_the_same_in_every_view() {
    for view_key in [None, Some(Key::F(2)), Some(Key::F(5))] {
        for help in [false, true] {
            let (mut app, _p) = console("t*3");
            if let Some(key) = view_key {
                app.handle_key_event(press(key));
            }
            app.sync_library(20, 1);
            if help {
                app.handle_key_event(press(Key::F(1)));
            }
            let view = app.current_view();
            assert!(matches!(
                app.handle_key_event(press(Key::Up)),
                Some(UiCommand::VolumeUp)
            ));
            assert!(matches!(
                app.handle_key_event(press(Key::Down)),
                Some(UiCommand::VolumeDown)
            ));
            assert!(matches!(
                app.handle_key_event(press(Key::F(4))),
                Some(UiCommand::StreamPlay)
            ));
            assert!(!app.is_paused());
            assert!(matches!(
                app.handle_key_event(press(Key::F(4))),
                Some(UiCommand::StreamPause)
            ));
            assert!(app.is_paused());
            // none of them touches the editor, the selection or the view
            assert_eq!(app.beat_input().current_source(), "t*3");
            assert!(app.library().selected_song().is_none());
            assert_eq!(app.current_view(), view);
            assert_eq!(app.shows_help(), help);
            assert!(app.is_running());
            assert!(app.handle_key_event(press(Key::F(3))).is_none());
            assert!(!app.is_running());
            assert_eq!(app.beat_input().current_source(), "t*3");
        }
    }
}

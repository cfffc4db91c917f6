//! The song browser: listen to a built-in song, or take it into the editor.
use vstd::prelude::*;

use super::dynatable::{index_of_key, DynaTableState};
use super::{AppEvent, Key, KeyPress};
use crate::library_data::{built_in, songs, Song};
use crate::text::string_from_chars;

verus! {

/// How many characters of a song's code the table shows.
pub const CODE_TRUNCATE_LEN: usize = 40;

/// How many characters stand before the first line feed.
pub open spec fn line_len(text: Seq<char>) -> nat
    decreases text.len(),
{
    if text.len() == 0 || text[0] == '\n' {
        0
    } else {
        1 + line_len(text.drop_first())
    }
}

/// The code as the table shows it: its first line, and where that is longer
/// than the table's column, the start of it and an ellipsis.
pub open spec fn truncated(code: Seq<char>) -> Seq<char> {
    let first = code.subrange(0, line_len(code) as int);
    if first.len() > CODE_TRUNCATE_LEN {
        first.subrange(0, CODE_TRUNCATE_LEN as int).push('\u{2026}')
    } else {
        first
    }
}

proof fn lemma_line_len(text: Seq<char>, n: nat)
    requires
        n <= text.len(),
        forall|i: int| 0 <= i < n ==> text[i] != '\n',
        n == text.len() || text[n as int] == '\n',
    ensures
        line_len(text) == n,
    decreases n,
{
    if n > 0 {
        lemma_line_len(text.drop_first(), (n - 1) as nat);
    }
}

/// The code as the table shows it.
pub fn truncate_code(code: &str) -> (shown: String)
    ensures
        shown@ == truncated(code@),
{
    let mut first: Vec<char> = Vec::new();
    let mut full = false;
    let len = code.unicode_len();
    let mut i: usize = 0;
    while i < len && code.get_char(i) != '\n'
        invariant
            len == code@.len(),
            i <= len,
            forall|j: int| 0 <= j < i ==> code@[j] != '\n',
            full == (i > CODE_TRUNCATE_LEN),
            first@ == code@.subrange(
                0,
                if i <= CODE_TRUNCATE_LEN {
                    i as int
                } else {
                    CODE_TRUNCATE_LEN as int
                },
            ),
        decreases len - i,
    {
        if i < CODE_TRUNCATE_LEN {
            first.push(code.get_char(i));
            assert(first@ =~= code@.subrange(0, i + 1));
        } else {
            full = true;
        }
        i += 1;
    }
    proof {
        lemma_line_len(code@, i as nat);
        let whole = code@.subrange(0, i as int);
        if full {
            assert(first@ =~= whole.subrange(0, CODE_TRUNCATE_LEN as int));
        }
    }
    if full {
        first.push('\u{2026}');
    }
    string_from_chars(&first)
}

/// The song browser: the table of songs and what is selected in it.
#[derive(Debug)]
pub struct Library {
    table_state: DynaTableState,
    songs: Vec<Song>,
}

impl Library {
    /// The paging and selection of the table.
    pub closed spec fn table(&self) -> DynaTableState {
        self.table_state
    }

    /// The songs of the table.
    pub closed spec fn song_list(&self) -> Seq<Song> {
        self.songs@
    }

    /// The table selects only among the songs there are.
    pub open spec fn wf(&self) -> bool {
        self.table().wf() && self.table().total() <= self.song_list().len()
    }

    /// The song that is selected, if one is.
    pub open spec fn selected(&self) -> Option<Song> {
        match self.table().selection() {
            Some(local) => Some(
                self.song_list()[self.table().page() * self.table().per_page() + local],
            ),
            None => None,
        }
    }

    /// What a key does to the browser: `after` is the browser then, `event`
    /// what it asks of the application.
    pub open spec fn key_effect(&self, key: KeyPress, after: Library, event: Option<AppEvent>) -> bool {
        let was = self.table();
        let now = after.table();
        &&& after.song_list() == self.song_list()
        &&& now.total() == was.total()
        &&& now.per_page() == was.per_page()
        &&& match key.code {
            Key::PageUp | Key::Left => {
                &&& event is None
                &&& now.page() == if was.page() > 0 {
                    was.page() - 1
                } else {
                    0
                }
                &&& now.selection() == if was.page() > 0 {
                    None
                } else {
                    was.selection()
                }
            },
            Key::PageDown | Key::Right => {
                &&& event is None
                &&& now.page() == if was.page() + 1 < was.pages() {
                    was.page() + 1
                } else {
                    was.page()
                }
                &&& now.selection() == if was.page() + 1 < was.pages() {
                    None
                } else {
                    was.selection()
                }
            },
            Key::Up => {
                &&& event is None
                &&& now.page() == was.page()
                &&& now.selection() == if was.rows() == 0 {
                    was.selection()
                } else {
                    match was.selection() {
                        Some(i) if i > 0 => Some(i - 1),
                        _ => Some(was.rows() - 1),
                    }
                }
            },
            Key::Down => {
                &&& event is None
                &&& now.page() == was.page()
                &&& now.selection() == if was.rows() == 0 {
                    was.selection()
                } else {
                    match was.selection() {
                        Some(i) if i + 1 < was.rows() => Some(i + 1),
                        _ => Some(0int),
                    }
                }
            },
            Key::Enter => now == was && match self.selected() {
                Some(song) => event is Some && event->0 is BeatOverwrite
                    && event->0->BeatOverwrite_0@ == song.code@,
                None => event is None,
            },
            Key::Char(c) => {
                &&& now.page() == was.page()
                &&& now.selection() == if index_of_key(c) is Some && index_of_key(c)->0
                    < was.rows() {
                    index_of_key(c)
                } else {
                    was.selection()
                }
                &&& match after.selected() {
                    Some(song) => event is Some && event->0 is InputReady
                        && event->0->InputReady_0@ == song.code@,
                    None => event is None,
                }
            },
            _ => now == was && event is None,
        }
    }

    /// A browser of the built-in songs, with nothing selected.
    pub fn new() -> (library: Library)
        ensures
            library.wf(),
            library.song_list() == built_in(),
            library.table().selection() is None,
            library.table().page() == 0,
            library.table().per_page() == 0,
            library.table().total() == 0,
    {
        Library { table_state: DynaTableState::default(), songs: songs() }
    }

    /// The songs of the table.
    pub fn songs(&self) -> (songs: &Vec<Song>)
        ensures
            songs@ == self.song_list(),
    {
        &self.songs
    }

    /// The paging and selection of the table.
    pub fn table_state(&self) -> (state: &DynaTableState)
        ensures
            *state == self.table(),
    {
        &self.table_state
    }

    /// Takes in the height available for rows, as `DynaTableState::sync`
    /// does, with the number of songs.
    pub fn sync(&mut self, usable_height: u16, row_height: u16)
        requires
            old(self).wf(),
        ensures
            final(self).wf(),
            final(self).song_list() == old(self).song_list(),
            old(self).table().synced(
                usable_height,
                old(self).song_list().len() as usize,
                row_height,
                final(self).table(),
            ),
    {
        let total = self.songs.len();
        self.table_state.sync(usable_height, total, row_height);
    }

    /// The song that is selected, if one is.
    pub fn selected_song(&self) -> (song: Option<&Song>)
        requires
            self.wf(),
        ensures
            match song {
                Some(s) => self.selected() == Some(*s),
                None => self.selected() is None,
            },
    {
        match self.table_state.selected_index() {
            Some(idx) => Some(&self.songs[idx]),
            None => None,
        }
    }

    /// Acts on a key: Page Up and Left show the page before, Page Down and
    /// Right the next; Up and Down move the selection. Enter asks to put
    /// the selected song into the editor and play it. A character selects
    /// the row it picks, if it picks one, and asks to play the song that is
    /// then selected, leaving the editor alone.
    pub fn handle_key_event(&mut self, key: KeyPress) -> (event: Option<AppEvent>)
        requires
            old(self).wf(),
        ensures
            final(self).wf(),
            old(self).key_effect(key, *final(self), event),
    {
        match key.code {
            Key::PageUp | Key::Left => {
                self.table_state.prev_page();
            },
            Key::PageDown | Key::Right => {
                self.table_state.next_page();
            },
            Key::Up => {
                self.table_state.select_prev();
            },
            Key::Down => {
                self.table_state.select_next();
            },
            // Enter overwrites the input with the song
            Key::Enter => {
                if let Some(song) = self.selected_song() {
                    return Some(AppEvent::BeatOverwrite(song.code.to_owned()));
                }
            },
            // Selecting any song samples it by playing without touching buffer
            Key::Char(c) => {
                self.table_state.select_by_key(c);
                if let Some(song) = self.selected_song() {
                    return Some(AppEvent::InputReady(song.code.to_owned()));
                }
            },
            _ => {},
        }
        None
    }
}

} // verus!

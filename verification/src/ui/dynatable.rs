//! Paging and selection for a table whose rows are picked by a key.
//!
//! A page holds at most as many rows as there are keys: the digits, then
//! the small letters, then the capital letters.
use vstd::prelude::*;

verus! {

/// How many rows a page can hold: ten digits and twice twenty-six letters.
pub const MAX_KEYS: usize = 62;

/// The key that picks the row `index` of a page; `?` for a row past the
/// last key.
pub open spec fn key_of_index(index: int) -> char {
    if 0 <= index <= 9 {
        (48 + index) as char
    } else if 10 <= index <= 35 {
        (97 + index - 10) as char
    } else if 36 <= index <= 61 {
        (65 + index - 36) as char
    } else {
        '?'
    }
}

/// The row that a key picks, if it picks one.
pub open spec fn index_of_key(c: char) -> Option<int> {
    if '0' <= c <= '9' {
        Some(c as int - 48)
    } else if 'a' <= c <= 'z' {
        Some(c as int - 97 + 10)
    } else if 'A' <= c <= 'Z' {
        Some(c as int - 65 + 36)
    } else {
        None
    }
}

/// Every row of a page is picked by the key it shows, and every key that
/// picks a row is the key that row shows.
pub proof fn lemma_keys_match(index: int, c: char)
    ensures
        0 <= index < MAX_KEYS ==> index_of_key(key_of_index(index)) == Some(index),
        index_of_key(c) is Some ==> 0 <= index_of_key(c)->0 < MAX_KEYS && key_of_index(
            index_of_key(c)->0,
        ) == c,
{
}

fn index_to_key_char(index: usize) -> (c: char)
    ensures
        c == key_of_index(index as int),
{
    if index <= 9 {
        let b: u8 = 48 + (index as u8);
        b as char
    } else if index <= 35 {
        let b: u8 = 97 + ((index - 10) as u8);
        b as char
    } else if index <= 61 {
        let b: u8 = 65 + ((index - 36) as u8);
        b as char
    } else {
        '?'
    }
}

fn key_char_to_index(c: char) -> (index: Option<usize>)
    ensures
        match index {
            Some(i) => index_of_key(c) == Some(i as int),
            None => index_of_key(c) is None,
        },
{
    let u: u32 = c as u32;
    if '0' <= c && c <= '9' {
        Some((u - 48) as usize)
    } else if 'a' <= c && c <= 'z' {
        Some((u - 97) as usize + 10)
    } else if 'A' <= c && c <= 'Z' {
        Some((u - 65) as usize + 36)
    } else {
        None
    }
}

/// The key that picks the row `index` of a page.
pub fn key_char_for_index(index: usize) -> (c: char)
    ensures
        c == key_of_index(index as int),
{
    index_to_key_char(index)
}

/// `x`, or the largest `usize` where `x` is larger.
pub open spec fn capped(x: int) -> int {
    if x > usize::MAX {
        usize::MAX as int
    } else {
        x
    }
}

/// How many pages `total` rows take at `per_page` rows a page.
pub open spec fn pages_for(total: int, per_page: int) -> int {
    if per_page <= 0 {
        0
    } else {
        (total + per_page - 1) / per_page
    }
}

/// The index of the first row of the page.
pub open spec fn start_of(page: int, per_page: int) -> int {
    capped(page * per_page)
}

/// The index after the last row of the page.
pub open spec fn end_of(page: int, per_page: int, total: int) -> int {
    let full = capped(start_of(page, per_page) + per_page);
    if full < total {
        full
    } else {
        total
    }
}

/// How many rows the page holds.
pub open spec fn rows_on(page: int, per_page: int, total: int) -> int {
    if end_of(page, per_page, total) > start_of(page, per_page) {
        end_of(page, per_page, total) - start_of(page, per_page)
    } else {
        0
    }
}

/// How many rows fit on a page of the given height: at least one, at most
/// one for each key.
pub open spec fn rows_fitting(usable_height: u16, row_height: u16) -> int {
    let fits = if row_height == 0 {
        0
    } else {
        usable_height as int / row_height as int
    };
    if fits < 1 {
        1
    } else if fits > MAX_KEYS {
        MAX_KEYS as int
    } else {
        fits
    }
}

/// Which page of a table is shown and which of its rows is selected.
#[derive(Debug, Clone, Copy)]
pub struct DynaTableState {
    // Which page has the user selected (0 inclusive)
    page: usize,
    // Which item has the user selected (0 inclusive)
    selection: Option<usize>,
    // Computed from last sync
    items_per_page: usize,
    total_items: usize,
}

impl DynaTableState {
    /// The page shown, counted from zero.
    pub closed spec fn page(&self) -> int {
        self.page as int
    }

    /// The selected row of the page, counted from zero.
    pub closed spec fn selection(&self) -> Option<int> {
        match self.selection {
            Some(i) => Some(i as int),
            None => None,
        }
    }

    /// How many rows a page holds, as of the last `sync`.
    pub closed spec fn per_page(&self) -> int {
        self.items_per_page as int
    }

    /// How many rows the table has, as of the last `sync`.
    pub closed spec fn total(&self) -> int {
        self.total_items as int
    }

    /// How many pages the table has.
    pub open spec fn pages(&self) -> int {
        pages_for(self.total(), self.per_page())
    }

    /// How many rows the page shown holds.
    pub open spec fn rows(&self) -> int {
        rows_on(self.page(), self.per_page(), self.total())
    }

    /// A page holds no more rows than there are keys, and a selected row is
    /// a row of the page shown.
    pub open spec fn wf(&self) -> bool {
        &&& 0 <= self.page() <= usize::MAX
        &&& 0 <= self.per_page() <= MAX_KEYS
        &&& 0 <= self.total() <= usize::MAX
        &&& match self.selection() {
            Some(i) => 0 <= i < self.rows(),
            None => true,
        }
    }

    /// What `sync` does: `after` is the state that has taken in the height
    /// available for rows and the number of rows. The page shown becomes
    /// the last page if it lay beyond; a selection beyond the page moves to
    /// the page's last row, and is dropped where the page is empty.
    pub open spec fn synced(
        &self,
        usable_height: u16,
        total_items: usize,
        row_height: u16,
        after: DynaTableState,
    ) -> bool {
        &&& after.total() == total_items
        &&& after.per_page() == rows_fitting(usable_height, row_height)
        &&& after.page() == if 0 < after.pages() <= self.page() {
            after.pages() - 1
        } else {
            self.page()
        }
        &&& after.selection() == match self.selection() {
            Some(i) => if i < after.rows() {
                Some(i)
            } else if after.rows() > 0 {
                Some(after.rows() - 1)
            } else {
                None
            },
            None => None,
        }
    }

    /// Takes in the height available for rows and the number of rows.
    pub fn sync(&mut self, usable_height: u16, total_items: usize, row_height: u16)
        requires
            old(self).wf(),
        ensures
            final(self).wf(),
            old(self).synced(usable_height, total_items, row_height, *final(self)),
    {
        self.total_items = total_items;

        let fits: usize = if row_height == 0 {
            0
        } else {
            (usable_height / row_height) as usize
        };
        self.items_per_page = if fits < 1 {
            1
        } else if fits > MAX_KEYS {
            MAX_KEYS
        } else {
            fits
        };

        let total_pages = self.total_pages();
        if total_pages > 0 && self.page >= total_pages {
            self.page = total_pages - 1;
        }
        let page_len = self.page_len();
        if let Some(sel) = self.selection {
            if sel >= page_len {
                self.selection = if page_len > 0 {
                    Some(page_len - 1)
                } else {
                    None
                };
            }
        }
    }

    fn total_pages(&self) -> (n: usize)
        requires
            0 <= self.per_page() <= MAX_KEYS,
        ensures
            n == self.pages(),
    {
        if self.items_per_page == 0 {
            return 0;
        }
        let whole = self.total_items / self.items_per_page;
        if self.total_items % self.items_per_page != 0 {
            assert(pages_for(self.total(), self.per_page()) == whole + 1) by (nonlinear_arith)
                requires
                    self.per_page() > 0,
                    self.total() >= 0,
                    whole == self.total() / self.per_page(),
                    self.total() % self.per_page() != 0,
                    pages_for(self.total(), self.per_page()) == (self.total() + self.per_page() - 1)
                        / self.per_page(),
            ;
            assert(whole + 1 <= usize::MAX) by (nonlinear_arith)
                requires
                    self.per_page() > 0,
                    0 <= self.total() <= usize::MAX,
                    whole == self.total() / self.per_page(),
                    self.total() % self.per_page() != 0,
            ;
            whole + 1
        } else {
            assert(pages_for(self.total(), self.per_page()) == whole) by (nonlinear_arith)
                requires
                    self.per_page() > 0,
                    self.total() >= 0,
                    whole == self.total() / self.per_page(),
                    self.total() % self.per_page() == 0,
                    pages_for(self.total(), self.per_page()) == (self.total() + self.per_page() - 1)
                        / self.per_page(),
            ;
            whole
        }
    }

    /// The index of the first row of the page shown.
    fn page_start(&self) -> (start: usize)
        ensures
            start == start_of(self.page(), self.per_page()),
    {
        match self.page.checked_mul(self.items_per_page) {
            Some(start) => start,
            None => usize::MAX,
        }
    }

    /// The index after the last row of the page shown.
    fn page_end(&self) -> (end: usize)
        ensures
            end == end_of(self.page(), self.per_page(), self.total()),
    {
        let full = self.page_start().saturating_add(self.items_per_page);
        if full < self.total_items {
            full
        } else {
            self.total_items
        }
    }

    fn page_len(&self) -> (len: usize)
        ensures
            len == self.rows(),
    {
        self.page_end().saturating_sub(self.page_start())
    }

    /// The rows of the page shown, as indices into the table: from the
    /// first to before the second.
    pub fn page_range(&self) -> (range: std::ops::Range<usize>)
        ensures
            range.start == start_of(self.page(), self.per_page()),
            range.end == end_of(self.page(), self.per_page(), self.total()),
    {
        self.page_start()..self.page_end()
    }

    /// The page shown, counted from zero.
    pub fn current_page(&self) -> (page: usize)
        ensures
            page == self.page(),
    {
        self.page
    }

    /// How many rows a page holds.
    pub fn items_per_page(&self) -> (n: usize)
        ensures
            n == self.per_page(),
    {
        self.items_per_page
    }

    /// The index into the table of the selected row, if a row is selected.
    pub fn selected_index(&self) -> (index: Option<usize>)
        requires
            self.wf(),
        ensures
            match index {
                Some(i) => self.selection() is Some && i == self.page() * self.per_page()
                    + self.selection()->0 && i < self.total(),
                None => self.selection() is None,
            },
    {
        match self.selection {
            Some(local) => {
                let start = self.page_start();
                Some(start + local)
            },
            None => None,
        }
    }

    /// The selected row of the page shown, if a row is selected.
    pub fn local_selection(&self) -> (local: Option<usize>)
        ensures
            match local {
                Some(i) => self.selection() == Some(i as int),
                None => self.selection() is None,
            },
    {
        self.selection
    }

    /// Selects the row that the key picks, if the key picks a row of the
    /// page shown, and says whether it did.
    pub fn select_by_key(&mut self, c: char) -> (picked: bool)
        requires
            old(self).wf(),
        ensures
            final(self).wf(),
            final(self).page() == old(self).page(),
            final(self).per_page() == old(self).per_page(),
            final(self).total() == old(self).total(),
            picked == (index_of_key(c) is Some && index_of_key(c)->0 < old(self).rows()),
            final(self).selection() == if picked {
                index_of_key(c)
            } else {
                old(self).selection()
            },
    {
        if let Some(local_index) = key_char_to_index(c) {
            if local_index < self.page_len() {
                self.selection = Some(local_index);
                return true;
            }
        }
        false
    }

    /// Selects the row after the selected one; from the last row, or with
    /// no row selected, the first. On an empty page nothing happens.
    pub fn select_next(&mut self)
        requires
            old(self).wf(),
        ensures
            final(self).wf(),
            final(self).page() == old(self).page(),
            final(self).per_page() == old(self).per_page(),
            final(self).total() == old(self).total(),
            final(self).selection() == if old(self).rows() == 0 {
                old(self).selection()
            } else {
                match old(self).selection() {
                    Some(i) if i + 1 < old(self).rows() => Some(i + 1),
                    _ => Some(0int),
                }
            },
    {
        let page_len = self.page_len();
        if page_len == 0 {
            return ;
        }
        self.selection = Some(
            match self.selection {
                Some(i) if i + 1 < page_len => i + 1,
                _ => 0,
            },
        );
    }

    /// Selects the row before the selected one; from the first row, or with
    /// no row selected, the last. On an empty page nothing happens.
    pub fn select_prev(&mut self)
        requires
            old(self).wf(),
        ensures
            final(self).wf(),
            final(self).page() == old(self).page(),
            final(self).per_page() == old(self).per_page(),
            final(self).total() == old(self).total(),
            final(self).selection() == if old(self).rows() == 0 {
                old(self).selection()
            } else {
                match old(self).selection() {
                    Some(i) if i > 0 => Some(i - 1),
                    _ => Some(old(self).rows() - 1),
                }
            },
    {
        let page_len = self.page_len();
        if page_len == 0 {
            return ;
        }
        self.selection = Some(
            match self.selection {
                Some(i) if i > 0 => i - 1,
                _ => page_len - 1,
            },
        );
    }

    /// Shows the next page, if there is one, with no row selected.
    pub fn next_page(&mut self)
        requires
            old(self).wf(),
        ensures
            final(self).wf(),
            final(self).per_page() == old(self).per_page(),
            final(self).total() == old(self).total(),
            old(self).page() + 1 < old(self).pages() ==> final(self).page() == old(self).page() + 1
                && final(self).selection() is None,
            !(old(self).page() + 1 < old(self).pages()) ==> final(self).page() == old(self).page()
                && final(self).selection() == old(self).selection(),
    {
        let pages = self.total_pages();
        if self.page < pages && self.page + 1 < pages {
            self.page += 1;
            self.selection = None;
        }
    }

    /// Shows the page before, if there is one, with no row selected.
    pub fn prev_page(&mut self)
        requires
            old(self).wf(),
        ensures
            final(self).wf(),
            final(self).per_page() == old(self).per_page(),
            final(self).total() == old(self).total(),
            old(self).page() > 0 ==> final(self).page() == old(self).page() - 1
                && final(self).selection() is None,
            old(self).page() == 0 ==> final(self).page() == 0 && final(self).selection() == old(
                self,
            ).selection(),
    {
        if self.page > 0 {
            self.page -= 1;
            self.selection = None;
        }
    }

    /// Selects no row.
    pub fn clear_selection(&mut self)
        requires
            old(self).wf(),
        ensures
            final(self).wf(),
            final(self).page() == old(self).page(),
            final(self).per_page() == old(self).per_page(),
            final(self).total() == old(self).total(),
            final(self).selection() is None,
    {
        self.selection = None;
    }
}

impl Default for DynaTableState {
    /// The first page of an empty table, with no row selected.
    fn default() -> (state: DynaTableState)
        ensures
            state.wf(),
            state.page() == 0,
            state.selection() is None,
            state.per_page() == 0,
            state.total() == 0,
    {
        DynaTableState { page: 0, selection: None, items_per_page: 0, total_items: 0 }
    }
}

} // verus!

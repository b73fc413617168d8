use vstd::prelude::*;
use image::DynamicImage;
use crate::cells::{
    TextCell, encode_sixel_resized, image_to_ascii, image_to_half_blocks, image_width,
    is_ascii_rendering, is_half_block_rendering, is_sixel_rendering, resize_fits, rows_view,
};
use crate::entries::{
    DirEntry, EntryView, ListingEntry, build_entries, entries_for, entry_views, joined, parent_of,
    path_join, path_parent,
};
use crate::render_method::{RenderMethod, all_methods};

verus! {

/// A rectangle of terminal cells.
#[derive(Debug, Clone, Copy, PartialEq, Eq, Structural)]
pub struct Area {
    pub x: u16,
    pub y: u16,
    pub width: u16,
    pub height: u16,
}

/// The dialog shown over the image viewer.
#[derive(Debug, Clone, Copy, PartialEq, Eq, Structural)]
pub enum Modal {
    RenderMethodPicker,
}

/// A key the application reacts to.
#[derive(Debug, Clone, Copy, PartialEq, Eq, Structural)]
pub enum Key {
    Esc,
    Enter,
    Up,
    Down,
    Home,
    End,
    PageUp,
    PageDown,
    Char(char),
    /// Any other key.
    Other,
}

/// What the application asks of its caller after a key.
#[derive(Debug)]
pub enum KeyAction {
    /// Keep running.
    Continue,
    /// Quit the application.
    Quit,
    /// Open this path: enter it if it is a directory, view it if it is an
    /// image file.
    Open(String),
}

/// The meaning of a `KeyAction`.
pub enum Outcome {
    Continue,
    Quit,
    Open(Seq<char>),
}

impl View for KeyAction {
    type V = Outcome;

    open spec fn view(&self) -> Outcome {
        match self {
            KeyAction::Continue => Outcome::Continue,
            KeyAction::Quit => Outcome::Quit,
            KeyAction::Open(p) => Outcome::Open(p@),
        }
    }
}

/// What the viewer draws in its image area.
pub enum ViewerBody<'a> {
    /// A notice that the image is being converted.
    Loading,
    /// The rendered cells.
    Cells(&'a Vec<Vec<TextCell>>),
    /// Nothing: the Sixel sequence is written over the area.
    Nothing,
}

/// The image being viewed and the path it was opened from.
pub struct ImageViewer {
    pub img: DynamicImage,
    pub file_path: String,
}

/// The state of the application: the file picker, the image viewer, the
/// render-method dialog, and what was last rendered.
pub struct App {
    dir: String,
    entries: Vec<DirEntry>,
    selected: Option<usize>,
    viewer: Option<ImageViewer>,
    modal: Option<Modal>,
    modal_selection: usize,
    render_method: RenderMethod,
    cached_render: Option<Vec<Vec<TextCell>>>,
    cached_sixel: Option<String>,
    sixel_area: Option<Area>,
    cached_size: Option<(u16, u16)>,
    needs_render: bool,
}

/// The state of the application as values.
pub struct AppView {
    /// The directory the picker shows.
    pub dir: Seq<char>,
    /// The picker's entries.
    pub entries: Seq<EntryView>,
    /// The index of the highlighted entry.
    pub selected: Option<usize>,
    /// The image being viewed and its path.
    pub viewer: Option<(DynamicImage, Seq<char>)>,
    /// The dialog shown over the viewer.
    pub modal: Option<Modal>,
    /// The highlighted line of the render-method dialog.
    pub modal_selection: usize,
    /// How the image is drawn.
    pub render_method: RenderMethod,
    /// The cells last rendered (half blocks or ASCII).
    pub cached_render: Option<Seq<Seq<TextCell>>>,
    /// The Sixel sequence last rendered.
    pub cached_sixel: Option<Seq<char>>,
    /// Where the Sixel image goes on the screen.
    pub sixel_area: Option<Area>,
    /// The terminal size the last rendering was made for.
    pub cached_size: Option<(u16, u16)>,
    /// The image must be rendered again.
    pub needs_render: bool,
}

impl AppView {
    /// What every state of the application satisfies: the dialog highlights
    /// one of the three render methods, the picker highlights an entry (or
    /// the first line when there is none), and the entries can be counted in
    /// a `usize`.
    pub open spec fn wf(self) -> bool {
        &&& self.modal_selection < 3
        &&& self.selected matches Some(i) && (i == 0 || i < self.entries.len())
        &&& self.entries.len() <= usize::MAX
    }
}

impl View for App {
    type V = AppView;

    closed spec fn view(&self) -> AppView {
        AppView {
            dir: self.dir@,
            entries: entry_views(self.entries@),
            selected: self.selected,
            viewer: match self.viewer {
                Some(v) => Some((v.img, v.file_path@)),
                None => None,
            },
            modal: self.modal,
            modal_selection: self.modal_selection,
            render_method: self.render_method,
            cached_render: match self.cached_render {
                Some(lines) => Some(rows_view(lines@)),
                None => None,
            },
            cached_sixel: match self.cached_sixel {
                Some(s) => Some(s@),
                None => None,
            },
            sixel_area: self.sixel_area,
            cached_size: self.cached_size,
            needs_render: self.needs_render,
        }
    }
}

/// A listing taken by value.
pub open spec fn listing_view(listing: Option<&Vec<ListingEntry>>) -> Option<Seq<ListingEntry>> {
    match listing {
        Some(l) => Some(l@),
        None => None,
    }
}

/// The path the highlighted entry leads to: the parent directory for `..`,
/// else the entry's name joined to the directory; none when no entry is
/// highlighted.
pub open spec fn selected_path_of(s: AppView) -> Option<Seq<char>> {
    match s.selected {
        Some(i) => if 0 <= i < s.entries.len() {
            match s.entries[i as int] {
                EntryView::Dir(name) => if name == seq!['.', '.'] {
                    parent_of(s.dir)
                } else {
                    Some(joined(s.dir, name))
                },
                EntryView::File(name) => Some(joined(s.dir, name)),
            }
        } else {
            None
        },
        None => None,
    }
}

impl App {
    #[verifier::type_invariant]
    closed spec fn inv(self) -> bool {
        self@.wf()
    }

    /// The picker for directory `dir`, given its listing (`None` when it
    /// could not be read): the entries of the directory with the first one
    /// highlighted, no image open, half blocks as render method.
    pub fn new_file_picker(dir: String, listing: Option<&Vec<ListingEntry>>) -> (app: App)
        ensures
            app@ == (AppView {
                dir: dir@,
                entries: entries_for(parent_of(dir@) is Some, listing_view(listing)),
                selected: Some(0),
                viewer: None,
                modal: None,
                modal_selection: 0,
                render_method: RenderMethod::HalfBlock,
                cached_render: None,
                cached_sixel: None,
                sixel_area: None,
                cached_size: None,
                needs_render: false,
            }),
    {
        let has_parent = path_parent(dir.as_str()).is_some();
        let entries = build_entries(has_parent, listing);
        let _count = entries.len();
        assert(entry_views(entries@).len() == entries@.len());
        App {
            dir,
            entries,
            selected: Some(0),
            viewer: None,
            modal: None,
            modal_selection: 0,
            render_method: RenderMethod::HalfBlock,
            cached_render: None,
            cached_sixel: None,
            sixel_area: None,
            cached_size: None,
            needs_render: false,
        }
    }

    /// Reloads the entries of the current directory from its listing and
    /// highlights the first one.
    pub fn refresh_entries(&mut self, listing: Option<&Vec<ListingEntry>>)
        ensures
            final(self)@ == (AppView {
                entries: entries_for(parent_of(old(self)@.dir) is Some, listing_view(listing)),
                selected: Some(0),
                ..old(self)@
            }),
    {
        proof {
            use_type_invariant(&*self);
        }
        let has_parent = path_parent(self.dir.as_str()).is_some();
        let entries = build_entries(has_parent, listing);
        let _count = entries.len();
        assert(entry_views(entries@).len() == entries@.len());
        self.selected = Some(0);
        self.entries = entries;
    }

    /// The path the highlighted entry leads to.
    pub fn selected_path(&self) -> (r: Option<String>)
        ensures
            r is Some <==> selected_path_of(self@) is Some,
            r matches Some(p) ==> selected_path_of(self@) == Some(p@),
    {
        let idx = match self.selected {
            Some(i) => i,
            None => return None,
        };
        if idx >= self.entries.len() {
            return None;
        }
        match &self.entries[idx] {
            DirEntry::Dir(name) => {
                proof {
                    reveal_strlit("..");
                }
                if name.as_str().unicode_len() == 2 && name.as_str().get_char(0) == '.'
                    && name.as_str().get_char(1) == '.' {
                    assert(name@ =~= seq!['.', '.']);
                    path_parent(self.dir.as_str())
                } else {
                    assert(name@ != seq!['.', '.']);
                    Some(path_join(self.dir.as_str(), name.as_str()))
                }
            },
            DirEntry::File(name) => Some(path_join(self.dir.as_str(), name.as_str())),
        }
    }
}


/// `a - b`, or zero when `b` exceeds `a`.
pub open spec fn sat_sub(a: int, b: int) -> int {
    if a >= b {
        a - b
    } else {
        0
    }
}

/// The smaller of two numbers.
pub open spec fn min(a: int, b: int) -> int {
    if a <= b {
        a
    } else {
        b
    }
}

/// The line of the render-method dialog that shows method `m`.
pub open spec fn method_index(m: RenderMethod) -> usize {
    match m {
        RenderMethod::HalfBlock => 0,
        RenderMethod::Ascii => 1,
        RenderMethod::Sixel => 2,
    }
}

/// What a key does while the render-method dialog is open: `Esc` or `m`
/// closes it; `Up`/`k` and `Down`/`j` move the highlight within the three
/// methods; `Enter` chooses the highlighted method, drops what was rendered
/// and asks for a new rendering, and closes the dialog. Without an open
/// dialog nothing happens.
pub open spec fn modal_step(s: AppView, key: Key) -> AppView {
    if s.modal is None {
        s
    } else if key == Key::Esc || key == Key::Char('m') {
        AppView { modal: None, ..s }
    } else if key == Key::Up || key == Key::Char('k') {
        AppView { modal_selection: sat_sub(s.modal_selection as int, 1) as usize, ..s }
    } else if key == Key::Down || key == Key::Char('j') {
        AppView { modal_selection: min(s.modal_selection + 1, 2) as usize, ..s }
    } else if key == Key::Enter {
        AppView {
            render_method: all_methods()[s.modal_selection as int],
            cached_render: None,
            cached_sixel: None,
            sixel_area: None,
            needs_render: true,
            modal: None,
            ..s
        }
    } else {
        s
    }
}

/// What a key does in the image viewer: `q` or `Esc` quits; `b` goes back
/// to the picker; `m` opens the render-method dialog with the current
/// method highlighted.
pub open spec fn viewer_step(s: AppView, key: Key) -> (AppView, Outcome) {
    if key == Key::Char('q') || key == Key::Esc {
        (s, Outcome::Quit)
    } else if key == Key::Char('b') {
        (AppView { viewer: None, ..s }, Outcome::Continue)
    } else if key == Key::Char('m') {
        (
            AppView {
                modal: Some(Modal::RenderMethodPicker),
                modal_selection: method_index(s.render_method),
                ..s
            },
            Outcome::Continue,
        )
    } else {
        (s, Outcome::Continue)
    }
}

/// The picker with entry `i` highlighted.
pub open spec fn select(s: AppView, i: int) -> AppView {
    AppView { selected: Some(i as usize), ..s }
}

/// What a key does in the file picker: `q` or `Esc` quits; `Up`/`k` and
/// `Down`/`j` move the highlight by one entry, `PageUp` and `PageDown` by
/// twenty, `Home` and `End` to the first and last entry, never past the
/// ends; `Enter` asks to open the path of the highlighted entry.
pub open spec fn picker_step(s: AppView, key: Key) -> (AppView, Outcome) {
    let total = s.entries.len() as int;
    let i = match s.selected {
        Some(i) => i as int,
        None => 0,
    };
    if key == Key::Char('q') || key == Key::Esc {
        (s, Outcome::Quit)
    } else if key == Key::Up || key == Key::Char('k') {
        (if i > 0 {
            select(s, i - 1)
        } else {
            s
        }, Outcome::Continue)
    } else if key == Key::Down || key == Key::Char('j') {
        (if total > 0 && i < total - 1 {
            select(s, i + 1)
        } else {
            s
        }, Outcome::Continue)
    } else if key == Key::Home {
        (select(s, 0), Outcome::Continue)
    } else if key == Key::End {
        (if total > 0 {
            select(s, total - 1)
        } else {
            s
        }, Outcome::Continue)
    } else if key == Key::PageUp {
        (select(s, sat_sub(i, 20)), Outcome::Continue)
    } else if key == Key::PageDown {
        (select(s, min(i + 20, sat_sub(total, 1))), Outcome::Continue)
    } else if key == Key::Enter {
        (s, match selected_path_of(s) {
            Some(p) => Outcome::Open(p),
            None => Outcome::Continue,
        })
    } else {
        (s, Outcome::Continue)
    }
}

/// What a key does: the open dialog takes it first, else the image viewer,
/// else the file picker. Only the viewer and the picker quit.
pub open spec fn key_step(s: AppView, key: Key) -> (AppView, Outcome) {
    if s.modal is Some {
        (modal_step(s, key), Outcome::Continue)
    } else if s.viewer is Some {
        viewer_step(s, key)
    } else {
        picker_step(s, key)
    }
}

impl App {
    /// Handles a key press and says what the caller is to do next.
    pub fn handle_key(&mut self, code: Key) -> (r: KeyAction)
        ensures
            (final(self)@, r@) == key_step(old(self)@, code),
            final(self)@.wf(),
    {
        proof {
            use_type_invariant(&*self);
        }
        if self.modal.is_some() {
            self.handle_modal_key(code);
            return KeyAction::Continue;
        }
        if self.viewer.is_some() {
            return self.handle_viewer_key(code);
        }
        self.handle_picker_key(code)
    }

    /// Handles a key while the render-method dialog is open.
    pub fn handle_modal_key(&mut self, code: Key)
        ensures
            final(self)@ == modal_step(old(self)@, code),
            final(self)@.wf(),
    {
        proof {
            use_type_invariant(&*self);
        }
        match self.modal {
            Some(Modal::RenderMethodPicker) => {
                let methods = RenderMethod::all();
                let total = methods.len();
                if code == Key::Esc || code == Key::Char('m') {
                    self.modal = None;
                } else if code == Key::Up || code == Key::Char('k') {
                    self.modal_selection = self.modal_selection.saturating_sub(1);
                } else if code == Key::Down || code == Key::Char('j') {
                    let next = self.modal_selection + 1;
                    self.modal_selection = if next < total - 1 { next } else { total - 1 };
                } else if code == Key::Enter {
                    self.render_method = methods[self.modal_selection];
                    self.cached_render = None;
                    self.cached_sixel = None;
                    self.sixel_area = None;
                    self.needs_render = true;
                    self.modal = None;
                }
            },
            None => {},
        }
    }

    /// Handles a key in the image viewer.
    pub fn handle_viewer_key(&mut self, code: Key) -> (r: KeyAction)
        ensures
            (final(self)@, r@) == viewer_step(old(self)@, code),
            final(self)@.wf(),
    {
        proof {
            use_type_invariant(&*self);
        }
        if code == Key::Char('q') || code == Key::Esc {
            KeyAction::Quit
        } else if code == Key::Char('b') {
            self.viewer = None;
            KeyAction::Continue
        } else if code == Key::Char('m') {
            self.modal = Some(Modal::RenderMethodPicker);
            let methods = RenderMethod::all();
            let mut pos: usize = 0;
            let mut k: usize = 0;
            let mut found = false;
            while k < methods.len()
                invariant
                    methods@ == all_methods(),
                    k <= 3,
                    found ==> pos == method_index(self.render_method) && pos < 3,
                    !found ==> pos == 0 && forall|j: int| 0 <= j < k ==> all_methods()[j] != self.render_method,
                decreases 3 - k,
            {
                if !found && methods[k] == self.render_method {
                    pos = k;
                    found = true;
                }
                k += 1;
            }
            self.modal_selection = pos;
            KeyAction::Continue
        } else {
            KeyAction::Continue
        }
    }

    /// Handles a key in the file picker.
    pub fn handle_picker_key(&mut self, code: Key) -> (r: KeyAction)
        ensures
            (final(self)@, r@) == picker_step(old(self)@, code),
            final(self)@.wf(),
    {
        proof {
            use_type_invariant(&*self);
        }
        let total = self.entries.len();
        let i = match self.selected {
            Some(i) => i,
            None => 0,
        };
        if code == Key::Char('q') || code == Key::Esc {
            KeyAction::Quit
        } else if code == Key::Up || code == Key::Char('k') {
            if i > 0 {
                self.selected = Some(i - 1);
            }
            KeyAction::Continue
        } else if code == Key::Down || code == Key::Char('j') {
            if total > 0 && i < total - 1 {
                self.selected = Some(i + 1);
            }
            KeyAction::Continue
        } else if code == Key::Home {
            self.selected = Some(0);
            KeyAction::Continue
        } else if code == Key::End {
            if total > 0 {
                self.selected = Some(total - 1);
            }
            KeyAction::Continue
        } else if code == Key::PageUp {
            self.selected = Some(i.saturating_sub(20));
            KeyAction::Continue
        } else if code == Key::PageDown {
            let last = total.saturating_sub(1);
            let target = if i <= last && last - i >= 20 { i + 20 } else { last };
            self.selected = Some(target);
            KeyAction::Continue
        } else if code == Key::Enter {
            match self.selected_path() {
                Some(path) => KeyAction::Open(path),
                None => KeyAction::Continue,
            }
        } else {
            KeyAction::Continue
        }
    }
}


/// The first chunk that `Layout::split` gives when it splits the rectangle
/// of `width` by `height` cells at the origin vertically into a part of at
/// least `min` rows and a part of `len` rows.
pub uninterp spec fn vertical_split_first(width: u16, height: u16, min: u16, len: u16) -> Area;

/// `Layout::split` of ratatui, vertically, with the constraints
/// `Min(min)` and `Length(len)`, on the rectangle of `width` by `height`
/// cells at the origin; its first chunk. With one row at least for the
/// first part and one row for the second, the first part is the whole width
/// and all rows but the last, or all rows when there are fewer than two.
#[verifier::external_body]
fn split_vertical(width: u16, height: u16, min: u16, len: u16) -> (r: Area)
    ensures
        r == vertical_split_first(width, height, min, len),
        min == 1 && len == 1 ==> r == (Area {
            x: 0,
            y: 0,
            width,
            height: if height >= 2 {
                (height - 1) as u16
            } else {
                height
            },
        }),
{
    let chunks = ratatui::layout::Layout::default().direction(
        ratatui::layout::Direction::Vertical,
    ).constraints([ratatui::layout::Constraint::Min(min), ratatui::layout::Constraint::Length(len)]).split(
        ratatui::layout::Rect::new(0, 0, width, height),
    );
    Area { x: chunks[0].x, y: chunks[0].y, width: chunks[0].width, height: chunks[0].height }
}

/// The part of a `width` by `height` terminal where the image goes: all
/// rows but the status line.
pub open spec fn image_area_of(width: u16, height: u16) -> Area {
    Area {
        x: 0,
        y: 0,
        width,
        height: if height >= 2 {
            (height - 1) as u16
        } else {
            height
        },
    }
}

/// The resize that rendering with `method` into `area` makes of `img`
/// stays within the largest allocation: `area`'s width by twice its height
/// for half blocks, by its height otherwise.
pub open spec fn render_fits(img: DynamicImage, method: RenderMethod, area: Area) -> bool {
    match method {
        RenderMethod::HalfBlock => resize_fits(img, area.width as u32, (2 * area.height) as u32),
        _ => resize_fits(img, area.width as u32, area.height as u32),
    }
}

/// The state after rendering the viewed image for a `width` by `height`
/// terminal: the size and the image area are recorded, and the viewed
/// image, resized to the image area, is drawn there with the current method
/// (half blocks or ASCII as cells, Sixel as text), the other kind of
/// rendering being dropped.
pub open spec fn rendered(s: AppView, t: AppView, width: u16, height: u16) -> bool {
    let area = image_area_of(width, height);
    &&& s.viewer is Some
    &&& t == AppView {
        cached_size: Some((width, height)),
        sixel_area: Some(area),
        cached_render: t.cached_render,
        cached_sixel: t.cached_sixel,
        ..s
    }
    &&& match s.viewer {
        Some((img, _)) => match s.render_method {
            RenderMethod::HalfBlock => t.cached_sixel is None && (t.cached_render matches Some(cells)
                && is_half_block_rendering(img, area.width as u32, area.height as u32, cells)),
            RenderMethod::Ascii => t.cached_sixel is None && (t.cached_render matches Some(cells)
                && is_ascii_rendering(img, area.width as u32, area.height as u32, cells)),
            RenderMethod::Sixel => t.cached_render is None && (t.cached_sixel matches Some(text)
                && is_sixel_rendering(img, area.width as u32, area.height as u32, text)),
        },
        None => false,
    }
}

/// The state after noting a terminal size: while an image is viewed, a
/// size other than the one last rendered for drops the rendered cells and
/// asks for a new rendering.
pub open spec fn size_noted(s: AppView, width: u16, height: u16) -> AppView {
    if s.viewer is Some && s.cached_size != Some((width, height)) {
        AppView { cached_render: None, needs_render: true, ..s }
    } else {
        s
    }
}

/// The part of a `width` by `height` screen covered by the centered
/// render-method dialog: 82 by 10 cells, less on a screen smaller than
/// that plus a margin of 4.
pub open spec fn popup_area_of(width: u16, height: u16) -> Area {
    let w = min(82, sat_sub(width as int, 4));
    let h = min(10, sat_sub(height as int, 4));
    Area {
        x: (sat_sub(width as int, w) / 2) as u16,
        y: (sat_sub(height as int, h) / 2) as u16,
        width: w as u16,
        height: h as u16,
    }
}

/// Where the render-method dialog goes on a `width` by `height` screen.
pub fn popup_area(width: u16, height: u16) -> (r: Area)
    ensures
        r == popup_area_of(width, height),
{
    let popup_width = if 82 < width.saturating_sub(4) { 82 } else { width.saturating_sub(4) };
    let popup_height = if 10 < height.saturating_sub(4) { 10 } else { height.saturating_sub(4) };
    let x = width.saturating_sub(popup_width) / 2;
    let y = height.saturating_sub(popup_height) / 2;
    Area { x, y, width: popup_width, height: popup_height }
}

/// The number of directory entries among `entries`.
pub open spec fn dir_count(entries: Seq<EntryView>) -> nat
    decreases entries.len(),
{
    if entries.len() == 0 {
        0
    } else {
        dir_count(entries.drop_last()) + if entries.last() is Dir {
            1nat
        } else {
            0nat
        }
    }
}

impl App {
    /// Opens the picker on directory `dir` from its listing.
    pub fn enter_directory(&mut self, dir: String, listing: Option<&Vec<ListingEntry>>)
        ensures
            final(self)@ == (AppView {
                dir: dir@,
                entries: entries_for(parent_of(dir@) is Some, listing_view(listing)),
                selected: Some(0),
                ..old(self)@
            }),
    {
        proof {
            use_type_invariant(&*self);
        }
        self.dir = dir;
        self.refresh_entries(listing);
    }

    /// Shows an image: it becomes the viewed image, what was rendered is
    /// dropped, and a rendering is asked for.
    pub fn open_viewer(&mut self, img: DynamicImage, file_path: String)
        ensures
            final(self)@ == (AppView {
                viewer: Some((img, file_path@)),
                cached_render: None,
                cached_sixel: None,
                sixel_area: None,
                needs_render: true,
                ..old(self)@
            }),
    {
        proof {
            use_type_invariant(&*self);
        }
        self.viewer = Some(ImageViewer { img, file_path });
        self.cached_render = None;
        self.cached_sixel = None;
        self.sixel_area = None;
        self.needs_render = true;
    }

    /// Notes the terminal size: while an image is viewed, a size other
    /// than the one last rendered for drops the rendered cells and asks for
    /// a new rendering.
    pub fn note_terminal_size(&mut self, width: u16, height: u16)
        ensures
            final(self)@ == size_noted(old(self)@, width, height),
    {
        proof {
            use_type_invariant(&*self);
        }
        if self.viewer.is_some() {
            let same = match self.cached_size {
                Some((w, h)) => w == width && h == height,
                None => false,
            };
            if !same {
                self.cached_render = None;
                self.needs_render = true;
            }
        }
    }

    /// Whether a rendering is due (one was asked for and an image is
    /// viewed); if so, the request is taken.
    pub fn begin_render(&mut self) -> (go: bool)
        ensures
            go == (old(self)@.needs_render && old(self)@.viewer is Some),
            go ==> final(self)@ == (AppView { needs_render: false, ..old(self)@ }),
            !go ==> final(self)@ == old(self)@,
    {
        proof {
            use_type_invariant(&*self);
        }
        if self.needs_render && self.viewer.is_some() {
            self.needs_render = false;
            true
        } else {
            false
        }
    }

    /// Renders the viewed image for a `width` by `height` terminal.
    pub fn render(&mut self, width: u16, height: u16)
        requires
            old(self)@.viewer matches Some((img, _)) && render_fits(
                img,
                old(self)@.render_method,
                image_area_of(width, height),
            ),
        ensures
            rendered(old(self)@, final(self)@, width, height),
    {
        proof {
            use_type_invariant(&*self);
        }
        self.cached_size = Some((width, height));
        let image_area = split_vertical(width, height, 1, 1);
        let image_width = image_area.width as u32;
        let image_height = image_area.height as u32;
        self.sixel_area = Some(image_area);
        let viewer = match &self.viewer {
            Some(v) => v,
            None => {
                return;
            },
        };
        match self.render_method {
            RenderMethod::HalfBlock => {
                let lines = image_to_half_blocks(&viewer.img, image_width, image_height);
                self.cached_render = Some(lines);
                self.cached_sixel = None;
            },
            RenderMethod::Ascii => {
                let lines = image_to_ascii(&viewer.img, image_width, image_height);
                self.cached_render = Some(lines);
                self.cached_sixel = None;
            },
            RenderMethod::Sixel => {
                let sixel = encode_sixel_resized(&viewer.img, image_width, image_height);
                self.cached_render = None;
                self.cached_sixel = Some(sixel);
            },
        }
    }

    /// Renders the viewed image for a `width` by `height` terminal when the
    /// resize this takes stays within the largest allocation; says whether
    /// it did. Without a viewed image nothing happens.
    pub fn try_render(&mut self, width: u16, height: u16) -> (done: bool)
        ensures
            done <==> (old(self)@.viewer matches Some((img, _)) && render_fits(
                img,
                old(self)@.render_method,
                image_area_of(width, height),
            )),
            done ==> rendered(old(self)@, final(self)@, width, height),
            !done ==> final(self)@ == old(self)@,
    {
        let area = split_vertical(width, height, 1, 1);
        let rows: u128 = match self.render_method {
            RenderMethod::HalfBlock => 2 * area.height as u128,
            _ => area.height as u128,
        };
        let fits = match &self.viewer {
            Some(v) => {
                let source_width = image_width(&v.img) as u128;
                let limit = isize::MAX as u128;
                assert(source_width * rows * 16 <= 0x1_0000_0000 * 0x2_0000 * 16) by (nonlinear_arith)
                    requires source_width <= 0xffff_ffff, rows <= 0x2_0000;
                assert((area.width as u128) * rows * 16 <= 0x1_0000 * 0x2_0000 * 16) by (nonlinear_arith)
                    requires area.width <= 0xffff, rows <= 0x2_0000;
                source_width * rows * 16 <= limit && (area.width as u128) * rows * 16 <= limit
            },
            None => false,
        };
        if fits {
            self.render(width, height);
        }
        fits
    }

    // ---- Read access, for drawing ----

    /// The directory the picker shows.
    pub fn dir(&self) -> (r: &str)
        ensures
            r@ == self@.dir,
    {
        self.dir.as_str()
    }

    /// The picker's entries.
    pub fn entries(&self) -> (r: &Vec<DirEntry>)
        ensures
            entry_views(r@) == self@.entries,
    {
        &self.entries
    }

    /// The index of the highlighted entry.
    pub fn selected(&self) -> (r: Option<usize>)
        ensures
            r == self@.selected,
    {
        self.selected
    }

    /// The image being viewed, with its path.
    pub fn viewer(&self) -> (r: Option<&ImageViewer>)
        ensures
            r is Some <==> self@.viewer is Some,
            r matches Some(v) ==> self@.viewer == Some((v.img, v.file_path@)),
    {
        match &self.viewer {
            Some(v) => Some(v),
            None => None,
        }
    }

    /// The dialog shown over the viewer.
    pub fn modal(&self) -> (r: Option<Modal>)
        ensures
            r == self@.modal,
    {
        self.modal
    }

    /// The highlighted line of the render-method dialog.
    pub fn modal_selection(&self) -> (r: usize)
        ensures
            r == self@.modal_selection,
            r < 3,
    {
        proof {
            use_type_invariant(self);
        }
        self.modal_selection
    }

    /// How the image is drawn.
    pub fn render_method(&self) -> (r: RenderMethod)
        ensures
            r == self@.render_method,
    {
        self.render_method
    }

    /// The cells last rendered.
    pub fn cached_render(&self) -> (r: Option<&Vec<Vec<TextCell>>>)
        ensures
            r is Some <==> self@.cached_render is Some,
            r matches Some(lines) ==> self@.cached_render == Some(rows_view(lines@)),
    {
        match &self.cached_render {
            Some(lines) => Some(lines),
            None => None,
        }
    }

    /// The Sixel sequence last rendered.
    pub fn cached_sixel(&self) -> (r: Option<&String>)
        ensures
            r is Some <==> self@.cached_sixel is Some,
            r matches Some(text) ==> self@.cached_sixel == Some(text@),
    {
        match &self.cached_sixel {
            Some(text) => Some(text),
            None => None,
        }
    }

    /// Where the Sixel image goes on the screen.
    pub fn sixel_area(&self) -> (r: Option<Area>)
        ensures
            r == self@.sixel_area,
    {
        self.sixel_area
    }

    /// What to write straight to the terminal after a frame: in Sixel mode
    /// with a Sixel sequence rendered, the sequence and the cell where it
    /// starts (the corner of the image area, or the origin when none was
    /// recorded); otherwise nothing.
    pub fn sixel_to_write(&self) -> (r: Option<(u16, u16, &String)>)
        ensures
            r is Some <==> (self@.render_method == RenderMethod::Sixel && self@.cached_sixel is Some),
            r matches Some((x, y, text)) ==> {
                &&& self@.cached_sixel == Some(text@)
                &&& (x, y) == match self@.sixel_area {
                    Some(a) => (a.x, a.y),
                    None => (0u16, 0u16),
                }
            },
    {
        if self.render_method != RenderMethod::Sixel {
            return None;
        }
        let sixel_data = match &self.cached_sixel {
            Some(text) => text,
            None => {
                return None;
            },
        };
        let origin = match self.sixel_area {
            Some(a) => a,
            None => Area { x: 0, y: 0, width: 0, height: 0 },
        };
        Some((origin.x, origin.y, sixel_data))
    }

    /// What the viewer draws in its image area: in Sixel mode a loading
    /// notice until the sequence is rendered and nothing after (the sequence
    /// is written over the area); otherwise the rendered cells, or a loading
    /// notice while there are none.
    pub fn viewer_body(&self) -> (r: ViewerBody<'_>)
        ensures
            self@.render_method == RenderMethod::Sixel ==> (r is Nothing <==> self@.cached_sixel is Some)
                && (r is Loading <==> self@.cached_sixel is None),
            self@.render_method != RenderMethod::Sixel ==> match r {
                ViewerBody::Cells(lines) => self@.cached_render == Some(rows_view(lines@)),
                ViewerBody::Loading => self@.cached_render is None,
                ViewerBody::Nothing => false,
            },
    {
        if self.render_method == RenderMethod::Sixel {
            match &self.cached_sixel {
                Some(_) => ViewerBody::Nothing,
                None => ViewerBody::Loading,
            }
        } else {
            match &self.cached_render {
                Some(lines) => ViewerBody::Cells(lines),
                None => ViewerBody::Loading,
            }
        }
    }

    /// Whether the image must be rendered again.
    pub fn needs_render(&self) -> (r: bool)
        ensures
            r == self@.needs_render,
    {
        self.needs_render
    }

    /// The number of directory entries and of file entries the picker
    /// shows, for its status line.
    pub fn entry_counts(&self) -> (r: (usize, usize))
        ensures
            r.0 == dir_count(self@.entries),
            r.1 == self@.entries.len() - dir_count(self@.entries),
    {
        let mut dirs: usize = 0;
        let mut i: usize = 0;
        while i < self.entries.len()
            invariant
                i <= self.entries@.len(),
                dirs == dir_count(entry_views(self.entries@).take(i as int)),
                dirs <= i,
            decreases self.entries@.len() - i,
        {
            proof {
                let t = entry_views(self.entries@).take(i as int + 1);
                assert(t.drop_last() =~= entry_views(self.entries@).take(i as int));
            }
            match &self.entries[i] {
                DirEntry::Dir(_) => {
                    dirs += 1;
                },
                DirEntry::File(_) => {},
            }
            i += 1;
        }
        assert(entry_views(self.entries@).take(self.entries@.len() as int) =~= entry_views(
            self.entries@,
        ));
        let files = self.entries.len().saturating_sub(dirs);
        (dirs, files)
    }
}


// ---------------------------------------------------------------------------
// Laws
// ---------------------------------------------------------------------------

/// Every key keeps the application well formed: the dialog highlights one
/// of the three methods and the picker's highlight stays on an entry.
pub proof fn law_key_step_keeps_wf(s: AppView, key: Key)
    requires
        s.wf(),
    ensures
        key_step(s, key).0.wf(),
{
}

/// Keys never change the directory or the entries of the picker.
pub proof fn law_keys_keep_directory(s: AppView, key: Key)
    ensures
        key_step(s, key).0.dir == s.dir,
        key_step(s, key).0.entries == s.entries,
{
}

/// Only `q` and `Esc` quit, and only when no dialog is open.
pub proof fn law_quit_keys(s: AppView, key: Key)
    ensures
        key_step(s, key).1 is Quit <==> (s.modal is None && (key == Key::Char('q') || key
            == Key::Esc)),
{
}

/// Opening the render-method dialog and cancelling it leaves everything as
/// it was, but for the dialog's highlight, which rests on the current
/// method.
pub proof fn law_dialog_cancel_restores(s: AppView)
    requires
        s.viewer is Some,
        s.modal is None,
    ensures
        key_step(key_step(s, Key::Char('m')).0, Key::Esc).0 == (AppView {
            modal_selection: method_index(s.render_method),
            ..s
        }),
{
}

/// Opening the render-method dialog and confirming at once keeps the
/// current method, drops what was rendered and asks for a new rendering.
pub proof fn law_dialog_confirm_keeps_method(s: AppView)
    requires
        s.viewer is Some,
        s.modal is None,
    ensures
        key_step(key_step(s, Key::Char('m')).0, Key::Enter).0 == (AppView {
            modal_selection: method_index(s.render_method),
            cached_render: None,
            cached_sixel: None,
            sixel_area: None,
            needs_render: true,
            ..s
        }),
{
}

/// In the picker, moving down one entry and back up returns to the same
/// state, unless the highlight is on the last entry.
pub proof fn law_down_then_up(s: AppView, i: usize)
    requires
        s.wf(),
        s.modal is None,
        s.viewer is None,
        s.selected == Some(i),
        i + 1 < s.entries.len(),
    ensures
        key_step(key_step(s, Key::Down).0, Key::Up).0 == s,
{
}

/// In the picker, `PageUp` moves the highlight twenty entries up, or to the
/// first entry when fewer than twenty are above it, and changes nothing
/// else.
pub proof fn law_page_up_moves_twenty(s: AppView, i: usize)
    requires
        s.wf(),
        s.modal is None,
        s.viewer is None,
        s.selected == Some(i),
    ensures
        key_step(s, Key::PageUp).1 is Continue,
        i >= 20 ==> key_step(s, Key::PageUp).0 == (AppView { selected: Some((i - 20) as usize), ..s }),
        i < 20 ==> key_step(s, Key::PageUp).0 == (AppView { selected: Some(0usize), ..s }),
{
}

/// In the picker, `PageDown` then `PageUp` returns to the same state when
/// there are at least twenty entries below the highlight, and `PageUp`
/// then `PageDown` does when there are at least twenty above it.
pub proof fn law_page_down_and_up_undo(s: AppView, i: usize)
    requires
        s.wf(),
        s.modal is None,
        s.viewer is None,
        s.selected == Some(i),
        i < s.entries.len(),
    ensures
        i + 20 < s.entries.len() ==> key_step(key_step(s, Key::PageDown).0, Key::PageUp).0 == s,
        i >= 20 ==> key_step(key_step(s, Key::PageUp).0, Key::PageDown).0 == s,
{
}

/// Noting the size that the image was just rendered for changes nothing.
pub proof fn law_render_then_same_size(s: AppView, t: AppView, width: u16, height: u16)
    requires
        s.viewer is Some,
        rendered(s, t, width, height),
    ensures
        size_noted(t, width, height) == t,
{
}

} // verus!

//! The interactive view's state: which tab is shown, how it is sorted,
//! which device is selected, and the text inputs for naming a device and
//! for a WiFi password.

use vstd::prelude::*;

use crate::names::NameStore;
use crate::store::{WifiDevice, WifiKind};
use crate::table::Table;
use crate::oui::opt_string;
use crate::text::{chars_of, contains_chars, contains_seq, string_of, trim, trim_chars};

verus! {

/// The device list shown.
#[derive(Debug, Clone, Copy, PartialEq, Eq, Structural)]
pub enum Tab {
    Bt,
    Wifi,
    SubGhz,
}

/// How the device list is ordered.
#[derive(Debug, Clone, Copy, PartialEq, Eq, Structural)]
pub enum SortMode {
    Signal,
    Distance,
    Name,
    Type,
}

/// The word a sort mode is shown as.
pub open spec fn sort_label(m: SortMode) -> Seq<char> {
    match m {
        SortMode::Signal => "signal"@,
        SortMode::Distance => "distance"@,
        SortMode::Name => "name"@,
        SortMode::Type => "type"@,
    }
}

impl SortMode {
    /// The word this mode is shown as.
    pub fn label(&self) -> (r: &'static str)
        ensures
            r@ == sort_label(*self),
    {
        match self {
            SortMode::Signal => {
                proof {
                    reveal_strlit("signal");
                }
                "signal"
            },
            SortMode::Distance => {
                proof {
                    reveal_strlit("distance");
                }
                "distance"
            },
            SortMode::Name => {
                proof {
                    reveal_strlit("name");
                }
                "name"
            },
            SortMode::Type => {
                proof {
                    reveal_strlit("type");
                }
                "type"
            },
        }
    }
}

/// The password prompt for a secured access point.
pub struct WifiPasswordModal {
    pub bssid: String,
    pub ssid: String,
    pub buffer: String,
}

/// Everything the view remembers between frames.
pub struct TuiState {
    pub tab: Tab,
    pub sort_mode: SortMode,
    pub selected_id: Option<String>,
    pub scroll_offset: usize,
    pub editing: bool,
    pub edit_buffer: String,
    pub frozen_order: Option<Vec<String>>,
    pub paused: bool,
    pub should_quit: bool,
    pub wifi_status: Option<String>,
    pub bt_status: Option<String>,
    pub subghz_status: Option<String>,
    pub wifi_password_modal: Option<WifiPasswordModal>,
}

/// A [`TuiState`] with its text as characters.
pub struct TuiView {
    pub tab: Tab,
    pub sort_mode: SortMode,
    pub selected: Option<Seq<char>>,
    pub scroll: usize,
    pub editing: bool,
    pub buffer: Seq<char>,
    pub frozen: Option<Seq<Seq<char>>>,
    pub paused: bool,
    pub quit: bool,
    pub wifi_status: Option<Seq<char>>,
    pub bt_status: Option<Seq<char>>,
    pub subghz_status: Option<Seq<char>>,
    /// BSSID, SSID and the password typed so far.
    pub modal: Option<(Seq<char>, Seq<char>, Seq<char>)>,
}

/// The texts of a list of strings.
pub open spec fn texts(v: Seq<String>) -> Seq<Seq<char>> {
    v.map_values(|s: String| s@)
}

impl View for TuiState {
    type V = TuiView;

    open spec fn view(&self) -> TuiView {
        TuiView {
            tab: self.tab,
            sort_mode: self.sort_mode,
            selected: opt_string(self.selected_id),
            scroll: self.scroll_offset,
            editing: self.editing,
            buffer: self.edit_buffer@,
            frozen: match self.frozen_order {
                Some(v) => Some(texts(v@)),
                None => None,
            },
            paused: self.paused,
            quit: self.should_quit,
            wifi_status: opt_string(self.wifi_status),
            bt_status: opt_string(self.bt_status),
            subghz_status: opt_string(self.subghz_status),
            modal: match self.wifi_password_modal {
                Some(m) => Some((m.bssid@, m.ssid@, m.buffer@)),
                None => None,
            },
        }
    }
}

/// The tab after `t`: BT, WiFi, Sub-GHz, and round again.
pub open spec fn next_tab(t: Tab) -> Tab {
    match t {
        Tab::Bt => Tab::Wifi,
        Tab::Wifi => Tab::SubGhz,
        Tab::SubGhz => Tab::Bt,
    }
}

/// The sort mode after `m` on the tab `t`: BT goes signal, distance,
/// name; WiFi goes signal, name, type; Sub-GHz goes signal, name. Any other
/// mode goes back to signal.
pub open spec fn next_sort(t: Tab, m: SortMode) -> SortMode {
    match t {
        Tab::Bt => match m {
            SortMode::Signal => SortMode::Distance,
            SortMode::Distance => SortMode::Name,
            _ => SortMode::Signal,
        },
        Tab::Wifi => match m {
            SortMode::Signal => SortMode::Name,
            SortMode::Name => SortMode::Type,
            _ => SortMode::Signal,
        },
        Tab::SubGhz => match m {
            SortMode::Signal => SortMode::Name,
            _ => SortMode::Signal,
        },
    }
}

/// The first row shown so that row `sel` is among the `rows` shown, moving
/// as little as possible from `scroll`; with no rows nothing moves.
pub open spec fn visible_offset(scroll: int, sel: int, rows: int) -> int {
    if rows == 0 {
        scroll
    } else if sel < scroll {
        sel
    } else if sel >= scroll + rows {
        sel - rows + 1
    } else {
        scroll
    }
}

impl TuiState {
    /// The state at start: BT tab, sorted by signal, nothing selected,
    /// nothing typed, running.
    pub fn new() -> (r: Self)
        ensures
            r@ == (TuiView {
                tab: Tab::Bt,
                sort_mode: SortMode::Signal,
                selected: None,
                scroll: 0,
                editing: false,
                buffer: seq![],
                frozen: None,
                paused: false,
                quit: false,
                wifi_status: None,
                bt_status: None,
                subghz_status: None,
                modal: None,
            }),
    {
        TuiState {
            tab: Tab::Bt,
            sort_mode: SortMode::Signal,
            selected_id: None,
            scroll_offset: 0,
            editing: false,
            edit_buffer: String::new(),
            frozen_order: None,
            paused: false,
            should_quit: false,
            wifi_status: None,
            bt_status: None,
            subghz_status: None,
            wifi_password_modal: None,
        }
    }

    /// Moves to the next sort mode of the current tab.
    pub fn cycle_sort(&mut self)
        ensures
            final(self)@ == (TuiView { sort_mode: next_sort(old(self).tab, old(self).sort_mode), ..old(self)@ }),
    {
        self.sort_mode = match self.tab {
            Tab::Bt => match self.sort_mode {
                SortMode::Signal => SortMode::Distance,
                SortMode::Distance => SortMode::Name,
                _ => SortMode::Signal,
            },
            Tab::Wifi => match self.sort_mode {
                SortMode::Signal => SortMode::Name,
                SortMode::Name => SortMode::Type,
                _ => SortMode::Signal,
            },
            Tab::SubGhz => match self.sort_mode {
                SortMode::Signal => SortMode::Name,
                _ => SortMode::Signal,
            },
        };
    }

    /// Shows the next tab, with nothing selected, scrolled to the top and
    /// sorted by signal.
    pub fn toggle_tab(&mut self)
        ensures
            final(self)@ == (TuiView {
                tab: next_tab(old(self).tab),
                selected: None,
                scroll: 0,
                sort_mode: SortMode::Signal,
                ..old(self)@
            }),
    {
        self.tab = match self.tab {
            Tab::Bt => Tab::Wifi,
            Tab::Wifi => Tab::SubGhz,
            Tab::SubGhz => Tab::Bt,
        };
        self.selected_id = None;
        self.scroll_offset = 0;
        self.sort_mode = SortMode::Signal;
    }

    /// Scrolls so that row `selected_index` is among the `max_rows` rows
    /// shown.
    pub fn ensure_visible(&mut self, selected_index: usize, max_rows: usize)
        ensures
            final(self)@ == (TuiView {
                scroll: visible_offset(
                    old(self).scroll_offset as int,
                    selected_index as int,
                    max_rows as int,
                ) as usize,
                ..old(self)@
            }),
            max_rows > 0 ==> final(self).scroll_offset <= selected_index < final(self).scroll_offset
                + max_rows,
    {
        if max_rows == 0 {
            return;
        }
        if selected_index < self.scroll_offset {
            self.scroll_offset = selected_index;
        } else if selected_index - self.scroll_offset >= max_rows {
            self.scroll_offset = selected_index - max_rows + 1;
        }
    }

    /// Whether a text input (device name or WiFi password) has the keys.
    pub fn input_active(&self) -> (r: bool)
        ensures
            r == (self.editing || self.wifi_password_modal is Some),
    {
        self.editing || self.wifi_password_modal.is_some()
    }

    /// Puts `msg` in the status line of the current tab.
    pub fn set_tab_status(&mut self, msg: String)
        ensures
            final(self)@ == match old(self).tab {
                Tab::Bt => TuiView { bt_status: Some(msg@), ..old(self)@ },
                Tab::Wifi => TuiView { wifi_status: Some(msg@), ..old(self)@ },
                Tab::SubGhz => TuiView { subghz_status: Some(msg@), ..old(self)@ },
            },
    {
        match self.tab {
            Tab::Bt => self.bt_status = Some(msg),
            Tab::Wifi => self.wifi_status = Some(msg),
            Tab::SubGhz => self.subghz_status = Some(msg),
        }
    }

    /// The status line of the current tab.
    pub fn tab_status(&self) -> (r: Option<&str>)
        ensures
            crate::oui::opt_str(r) == match self.tab {
                Tab::Bt => opt_string(self.bt_status),
                Tab::Wifi => opt_string(self.wifi_status),
                Tab::SubGhz => opt_string(self.subghz_status),
            },
    {
        let s = match self.tab {
            Tab::Bt => &self.bt_status,
            Tab::Wifi => &self.wifi_status,
            Tab::SubGhz => &self.subghz_status,
        };
        match s {
            Some(m) => Some(m.as_str()),
            None => None,
        }
    }
}

// ---------------------------------------------------------------------------
// Keys
// ---------------------------------------------------------------------------

/// A key, as far as the view tells keys apart.
#[derive(Debug, Clone, Copy, PartialEq, Eq, Structural)]
pub enum KeyCode {
    Char(char),
    Enter,
    Esc,
    Backspace,
    Delete,
    Tab,
    Up,
    Down,
    Other,
}

/// A key press with its Control and Alt modifiers.
#[derive(Debug, Clone, Copy, PartialEq, Eq, Structural)]
pub struct KeyPress {
    pub code: KeyCode,
    pub ctrl: bool,
    pub alt: bool,
}

/// A request to join an access point.
pub struct ConnectRequest {
    pub bssid: String,
    pub ssid: String,
    pub password: Option<String>,
}

/// What a key asks of the rest of the program once the view has taken it.
pub enum KeyAction {
    Nothing,
    /// Select the previous device of the list shown.
    MoveUp,
    /// Select the next device of the list shown.
    MoveDown,
    /// Open the naming input for the selected device.
    BeginNaming,
    /// Write the current tab's devices to a file.
    Export,
    /// Forget the devices of this tab.
    Clear(Tab),
    /// Join the selected access point.
    WifiConnect,
    /// Join this access point now.
    Connect(ConnectRequest),
    /// The custom names changed: write them to the names file.
    SaveNames,
}

/// A [`KeyAction`] with its text as characters.
pub enum ActionView {
    Nothing,
    MoveUp,
    MoveDown,
    BeginNaming,
    Export,
    Clear(Tab),
    WifiConnect,
    Connect(Seq<char>, Seq<char>, Option<Seq<char>>),
    SaveNames,
}

impl View for KeyAction {
    type V = ActionView;

    open spec fn view(&self) -> ActionView {
        match self {
            KeyAction::Nothing => ActionView::Nothing,
            KeyAction::MoveUp => ActionView::MoveUp,
            KeyAction::MoveDown => ActionView::MoveDown,
            KeyAction::BeginNaming => ActionView::BeginNaming,
            KeyAction::Export => ActionView::Export,
            KeyAction::Clear(t) => ActionView::Clear(*t),
            KeyAction::WifiConnect => ActionView::WifiConnect,
            KeyAction::Connect(c) => ActionView::Connect(c.bssid@, c.ssid@, opt_string(c.password)),
            KeyAction::SaveNames => ActionView::SaveNames,
        }
    }
}

/// A text input after the key `k`: Backspace and Delete drop the last
/// character, a character typed without Control or Alt is added, anything
/// else leaves the text as it is.
pub open spec fn edited(text: Seq<char>, k: KeyPress) -> Seq<char> {
    match k.code {
        KeyCode::Backspace | KeyCode::Delete => if text.len() == 0 {
            text
        } else {
            text.drop_last()
        },
        KeyCode::Char(c) => if !k.ctrl && !k.alt {
            text.push(c)
        } else {
            text
        },
        _ => text,
    }
}

/// A key while the password prompt is open: Esc closes it, Enter closes it
/// and asks to join with the typed password, other keys edit the password.
pub open spec fn password_key(v: TuiView, k: KeyPress, w: TuiView, a: ActionView) -> bool {
    let (bssid, ssid, typed) = v.modal->0;
    match k.code {
        KeyCode::Esc => w == TuiView { modal: None, ..v } && a == ActionView::Nothing,
        KeyCode::Enter => w == TuiView { modal: None, ..v } && a == ActionView::Connect(
            bssid,
            ssid,
            Some(typed),
        ),
        _ => w == TuiView { modal: Some((bssid, ssid, edited(typed, k))), ..v } && a
            == ActionView::Nothing,
    }
}

/// The names after the naming input for the selected device is confirmed:
/// the trimmed text becomes its name, or, when it is empty, its name is
/// forgotten.
pub open spec fn confirmed_names(v: TuiView, names: Map<Seq<char>, Seq<char>>) -> Map<
    Seq<char>,
    Seq<char>,
> {
    match v.selected {
        None => names,
        Some(id) => if trim(v.buffer).len() == 0 {
            names.remove(id)
        } else {
            names.insert(id, trim(v.buffer))
        },
    }
}

/// A key while a device is being named: Esc closes the input, Enter
/// closes it and stores the name (asking for the names to be saved when a
/// device is selected), other keys edit the text.
pub open spec fn naming_key(
    v: TuiView,
    names: Map<Seq<char>, Seq<char>>,
    k: KeyPress,
    w: TuiView,
    names2: Map<Seq<char>, Seq<char>>,
    a: ActionView,
) -> bool {
    let closed = TuiView { editing: false, buffer: seq![], frozen: None, ..v };
    match k.code {
        KeyCode::Esc => w == closed && names2 == names && a == ActionView::Nothing,
        KeyCode::Enter => {
            &&& w == closed
            &&& names2 == confirmed_names(v, names)
            &&& a == if v.selected is Some {
                ActionView::SaveNames
            } else {
                ActionView::Nothing
            }
        },
        _ => w == TuiView { buffer: edited(v.buffer, k), ..v } && names2 == names && a
            == ActionView::Nothing,
    }
}

/// A key when no input is open.
pub open spec fn command_key(
    v: TuiView,
    names: Map<Seq<char>, Seq<char>>,
    k: KeyPress,
    w: TuiView,
    names2: Map<Seq<char>, Seq<char>>,
    a: ActionView,
) -> bool {
    if k.code == KeyCode::Char('q') || (k.code == KeyCode::Char('c') && k.ctrl) {
        w == TuiView { quit: true, ..v } && names2 == names && a == ActionView::Nothing
    } else if k.code == KeyCode::Tab {
        &&& w == TuiView {
            tab: next_tab(v.tab),
            selected: None,
            scroll: 0,
            sort_mode: SortMode::Signal,
            ..v
        }
        &&& names2 == names
        &&& a == ActionView::Nothing
    } else if k.code == KeyCode::Up {
        w == v && names2 == names && a == ActionView::MoveUp
    } else if k.code == KeyCode::Down {
        w == v && names2 == names && a == ActionView::MoveDown
    } else if k.code == KeyCode::Char('n') || k.code == KeyCode::Enter {
        &&& w == v
        &&& names2 == names
        &&& a == if v.selected is Some {
            ActionView::BeginNaming
        } else {
            ActionView::Nothing
        }
    } else if k.code == KeyCode::Char('x') {
        &&& w == v
        &&& names2 == match v.selected {
            Some(id) => names.remove(id),
            None => names,
        }
        &&& a == if v.selected is Some {
            ActionView::SaveNames
        } else {
            ActionView::Nothing
        }
    } else if k.code == KeyCode::Char('s') {
        &&& w == TuiView { sort_mode: next_sort(v.tab, v.sort_mode), ..v }
        &&& names2 == names
        &&& a == ActionView::Nothing
    } else if k.code == KeyCode::Char('p') {
        w == TuiView { paused: !v.paused, ..v } && names2 == names && a == ActionView::Nothing
    } else if k.code == KeyCode::Char('w') && v.tab == Tab::Wifi {
        w == v && names2 == names && a == ActionView::WifiConnect
    } else if k.code == KeyCode::Char('e') {
        w == v && names2 == names && a == ActionView::Export
    } else if k.code == KeyCode::Char('c') {
        &&& w == TuiView { selected: None, scroll: 0, ..v }
        &&& names2 == names
        &&& a == ActionView::Clear(v.tab)
    } else {
        w == v && names2 == names && a == ActionView::Nothing
    }
}

/// A key taken in the view `v` with the names `names`: the password
/// prompt has it when open, else the naming input when open, else it is a
/// command.
pub open spec fn key_step(
    v: TuiView,
    names: Map<Seq<char>, Seq<char>>,
    k: KeyPress,
    w: TuiView,
    names2: Map<Seq<char>, Seq<char>>,
    a: ActionView,
) -> bool {
    if v.modal is Some {
        password_key(v, k, w, a) && names2 == names
    } else if v.editing {
        naming_key(v, names, k, w, names2, a)
    } else {
        command_key(v, names, k, w, names2, a)
    }
}

/// `s` without its last character (itself when empty).
fn without_last(s: &String) -> (r: String)
    ensures
        r@ == if s@.len() == 0 {
            s@
        } else {
            s@.drop_last()
        },
{
    let v = chars_of(s.as_str());
    if v.len() == 0 {
        return String::new();
    }
    let mut out = String::new();
    let mut i: usize = 0;
    let n = v.len() - 1;
    while i < n
        invariant
            n == v@.len() - 1,
            i <= n,
            v@ == s@,
            out@ == v@.take(i as int),
        decreases v@.len() - i,
    {
        out.push(v[i]);
        assert(v@.take(i as int).push(v@[i as int]) =~= v@.take(i + 1));
        i = i + 1;
    }
    assert(v@.take(i as int) =~= v@.drop_last());
    out
}

/// The text `s` after the key `k` (see [`edited`]).
fn edit_text(s: &String, k: KeyPress) -> (r: String)
    ensures
        r@ == edited(s@, k),
{
    match k.code {
        KeyCode::Backspace | KeyCode::Delete => without_last(s),
        KeyCode::Char(c) => {
            let mut t = s.clone();
            if !k.ctrl && !k.alt {
                t.push(c);
            }
            t
        },
        _ => s.clone(),
    }
}

impl TuiState {
    /// Takes a key: the password prompt has it first, then the naming
    /// input, else it is a command. What needs the device lists or the
    /// outside world comes back as the action.
    pub fn handle_key(&mut self, key: KeyPress, names: &mut NameStore) -> (r: KeyAction)
        ensures
            key_step(old(self)@, old(names)@, key, final(self)@, final(names)@, r@),
    {
        if self.wifi_password_modal.is_some() {
            return self.password_key(key);
        }
        if self.editing {
            return self.naming_key(key, names);
        }
        self.command_key(key, names)
    }

    fn password_key(&mut self, key: KeyPress) -> (r: KeyAction)
        requires
            old(self).wifi_password_modal is Some,
        ensures
            password_key(old(self)@, key, final(self)@, r@),
    {
        match key.code {
            KeyCode::Esc => {
                self.wifi_password_modal = None;
                KeyAction::Nothing
            },
            KeyCode::Enter => {
                let m = self.wifi_password_modal.take();
                match m {
                    Some(m) => KeyAction::Connect(
                        ConnectRequest { bssid: m.bssid, ssid: m.ssid, password: Some(m.buffer) },
                    ),
                    None => KeyAction::Nothing,
                }
            },
            _ => {
                let m = self.wifi_password_modal.take();
                match m {
                    Some(m) => {
                        let buffer = edit_text(&m.buffer, key);
                        self.wifi_password_modal = Some(
                            WifiPasswordModal { bssid: m.bssid, ssid: m.ssid, buffer },
                        );
                    },
                    None => {},
                }
                KeyAction::Nothing
            },
        }
    }

    fn naming_key(&mut self, key: KeyPress, names: &mut NameStore) -> (r: KeyAction)
        ensures
            naming_key(old(self)@, old(names)@, key, final(self)@, final(names)@, r@),
    {
        match key.code {
            KeyCode::Esc => {
                self.editing = false;
                self.edit_buffer = String::new();
                self.frozen_order = None;
                KeyAction::Nothing
            },
            KeyCode::Enter => {
                let action = match &self.selected_id {
                    Some(id) => {
                        let t = trim_chars(&chars_of(self.edit_buffer.as_str()));
                        if t.len() == 0 {
                            names.remove(id.as_str());
                        } else {
                            let name = string_of(&t);
                            names.set(id.as_str(), name.as_str());
                        }
                        KeyAction::SaveNames
                    },
                    None => KeyAction::Nothing,
                };
                self.editing = false;
                self.edit_buffer = String::new();
                self.frozen_order = None;
                action
            },
            _ => {
                self.edit_buffer = edit_text(&self.edit_buffer, key);
                KeyAction::Nothing
            },
        }
    }

    fn command_key(&mut self, key: KeyPress, names: &mut NameStore) -> (r: KeyAction)
        ensures
            command_key(old(self)@, old(names)@, key, final(self)@, final(names)@, r@),
    {
        let code = key.code;
        if code == KeyCode::Char('q') || (code == KeyCode::Char('c') && key.ctrl) {
            self.should_quit = true;
            KeyAction::Nothing
        } else if code == KeyCode::Tab {
            self.toggle_tab();
            KeyAction::Nothing
        } else if code == KeyCode::Up {
            KeyAction::MoveUp
        } else if code == KeyCode::Down {
            KeyAction::MoveDown
        } else if code == KeyCode::Char('n') || code == KeyCode::Enter {
            if self.selected_id.is_some() {
                KeyAction::BeginNaming
            } else {
                KeyAction::Nothing
            }
        } else if code == KeyCode::Char('x') {
            match &self.selected_id {
                Some(id) => {
                    names.remove(id.as_str());
                    KeyAction::SaveNames
                },
                None => KeyAction::Nothing,
            }
        } else if code == KeyCode::Char('s') {
            self.cycle_sort();
            KeyAction::Nothing
        } else if code == KeyCode::Char('p') {
            self.paused = !self.paused;
            KeyAction::Nothing
        } else if code == KeyCode::Char('w') && self.tab == Tab::Wifi {
            KeyAction::WifiConnect
        } else if code == KeyCode::Char('e') {
            KeyAction::Export
        } else if code == KeyCode::Char('c') {
            self.selected_id = None;
            self.scroll_offset = 0;
            KeyAction::Clear(self.tab)
        } else {
            KeyAction::Nothing
        }
    }
}

// ---------------------------------------------------------------------------
// Selection and naming
// ---------------------------------------------------------------------------

/// The first position at or after `i` where `id` stands in `ids`; -1 when
/// there is none.
pub open spec fn first_at(ids: Seq<Seq<char>>, id: Seq<char>, i: int) -> int
    decreases ids.len() - i,
{
    if i < 0 || i >= ids.len() {
        -1
    } else if ids[i] == id {
        i
    } else {
        first_at(ids, id, i + 1)
    }
}

/// The row of the selection in `ids`: where the selected id first stands,
/// the top row when nothing is selected or it is not listed.
pub open spec fn selected_row(ids: Seq<Seq<char>>, sel: Option<Seq<char>>) -> int {
    match sel {
        None => 0,
        Some(id) => if first_at(ids, id, 0) >= 0 {
            first_at(ids, id, 0)
        } else {
            0
        },
    }
}

/// Row `cur` moved by `delta` rows, kept within a list of `len` rows.
pub open spec fn moved_row(cur: int, delta: int, len: int) -> int {
    if delta < 0 {
        if cur + delta < 0 {
            0
        } else {
            cur + delta
        }
    } else if cur + delta > len - 1 {
        len - 1
    } else {
        cur + delta
    }
}

proof fn lemma_first_at_range(ids: Seq<Seq<char>>, id: Seq<char>, i: int)
    requires
        0 <= i,
    ensures
        first_at(ids, id, i) == -1 || (i <= first_at(ids, id, i) < ids.len() && ids[first_at(
            ids,
            id,
            i,
        )] == id),
    decreases ids.len() - i,
{
    if i < ids.len() && ids[i] != id {
        lemma_first_at_range(ids, id, i + 1);
    }
}

proof fn lemma_first_at_finds(ids: Seq<Seq<char>>, id: Seq<char>, i: int, k: int)
    requires
        0 <= i <= k < ids.len(),
        ids[k] == id,
    ensures
        first_at(ids, id, i) >= 0,
    decreases k - i,
{
    if ids[i] != id {
        lemma_first_at_finds(ids, id, i + 1, k);
    }
}

/// The row of a selection is a row of the (non-empty) list.
pub proof fn lemma_selected_in_range(ids: Seq<Seq<char>>, id: Seq<char>)
    requires
        ids.len() > 0,
    ensures
        0 <= selected_row(ids, Some(id)) < ids.len(),
{
    lemma_first_at_range(ids, id, 0);
}

/// Where `id` first stands in `ids`.
pub fn position_of(ids: &[String], id: &str) -> (r: Option<usize>)
    ensures
        match r {
            Some(i) => i as int == first_at(texts(ids@), id@, 0),
            None => first_at(texts(ids@), id@, 0) == -1,
        },
{
    let ghost t = texts(ids@);
    let mut i: usize = 0;
    while i < ids.len()
        invariant
            i <= ids@.len(),
            t == texts(ids@),
            first_at(t, id@, 0) == first_at(t, id@, i as int),
        decreases ids@.len() - i,
    {
        if crate::text::same_text(ids[i].as_str(), id) {
            return Some(i);
        }
        i = i + 1;
    }
    None
}

impl TuiState {
    /// Moves the selection `delta` rows through the list `ids` shown (from
    /// the top row when the selection is not in it), staying within the
    /// list; an empty list changes nothing.
    pub fn move_selection(&mut self, ids: &[String], delta: i32)
        ensures
            ids@.len() == 0 ==> final(self)@ == old(self)@,
            ids@.len() > 0 ==> final(self)@ == (TuiView {
                selected: Some(
                    texts(ids@)[moved_row(
                        selected_row(texts(ids@), old(self)@.selected),
                        delta as int,
                        ids@.len() as int,
                    )],
                ),
                ..old(self)@
            }),
    {
        let len = ids.len();
        if len == 0 {
            return;
        }
        let cur: usize = match &self.selected_id {
            Some(id) => match position_of(ids, id.as_str()) {
                Some(i) => i,
                None => 0,
            },
            None => 0,
        };
        proof {
            if self@.selected is Some {
                lemma_first_at_range(texts(ids@), self@.selected->0, 0);
            }
        }
        let next: usize = if delta < 0 {
            let back = (0 - (delta as i64)) as u64;
            if back > cur as u64 {
                0
            } else {
                cur - back as usize
            }
        } else {
            let ahead = delta as u64;
            if ahead > (len - 1 - cur) as u64 {
                len - 1
            } else {
                cur + ahead as usize
            }
        };
        self.selected_id = Some(ids[next].clone());
    }

    /// Selects the top row of `ids` when nothing is selected yet.
    pub fn select_first_if_none(&mut self, ids: &[String])
        ensures
            old(self).selected_id is None && ids@.len() > 0 ==> final(self)@ == (TuiView {
                selected: Some(texts(ids@)[0]),
                ..old(self)@
            }),
            !(old(self).selected_id is None && ids@.len() > 0) ==> final(self)@ == old(self)@,
    {
        if self.selected_id.is_none() && ids.len() > 0 {
            self.selected_id = Some(ids[0].clone());
        }
    }

    /// Opens the naming input for the selected device, with its current
    /// name (or nothing) as the text, and holds the list order `visible`
    /// still while the input is open. Nothing happens without a selection.
    pub fn begin_naming(&mut self, names: &NameStore, visible: Vec<String>)
        ensures
            old(self).selected_id is None ==> final(self)@ == old(self)@,
            old(self)@.selected matches Some(id) ==> final(self)@ == (TuiView {
                editing: true,
                buffer: if names@.contains_key(id) {
                    names@[id]
                } else {
                    seq![]
                },
                frozen: Some(texts(visible@)),
                ..old(self)@
            }),
    {
        let text = match &self.selected_id {
            Some(id) => match names.get(id.as_str()) {
                Some(n) => n.to_owned(),
                None => String::new(),
            },
            None => return,
        };
        self.editing = true;
        self.edit_buffer = text;
        self.frozen_order = Some(visible);
    }
}

/// The ids of `frozen` that are in `current`, in the order of `frozen`.
pub open spec fn still_listed(frozen: Seq<Seq<char>>, current: Seq<Seq<char>>) -> Seq<Seq<char>>
    decreases frozen.len(),
{
    if frozen.len() == 0 {
        seq![]
    } else if current.contains(frozen.last()) {
        still_listed(frozen.drop_last(), current).push(frozen.last())
    } else {
        still_listed(frozen.drop_last(), current)
    }
}

impl TuiState {
    /// The order the rows `current` are shown in: while a device is being
    /// named, the order held when naming began (devices gone since are
    /// left out, new ones are not shown); otherwise `current` itself.
    pub fn shown_order(&self, current: Vec<String>) -> (r: Vec<String>)
        ensures
            texts(r@) == match self@.frozen {
                Some(f) => if self.editing {
                    still_listed(f, texts(current@))
                } else {
                    texts(current@)
                },
                None => texts(current@),
            },
    {
        if !self.editing {
            return current;
        }
        let frozen = match &self.frozen_order {
            Some(f) => f,
            None => return current,
        };
        let ghost cur = texts(current@);
        let mut out: Vec<String> = Vec::new();
        let mut i: usize = 0;
        while i < frozen.len()
            invariant
                i <= frozen@.len(),
                cur == texts(current@),
                texts(out@) == still_listed(texts(frozen@.take(i as int)), cur),
            decreases frozen@.len() - i,
        {
            let id = &frozen[i];
            assert(texts(frozen@.take(i + 1)).drop_last() =~= texts(frozen@.take(i as int)));
            assert(texts(frozen@.take(i + 1)).last() == id@);
            let present = match position_of(current.as_slice(), id.as_str()) {
                Some(_) => true,
                None => false,
            };
            proof {
                lemma_first_at_range(cur, id@, 0);
                if cur.contains(id@) {
                    let k = choose|k: int| 0 <= k < cur.len() && cur[k] == id@;
                    lemma_first_at_finds(cur, id@, 0, k);
                }
            }
            if present {
                out.push(id.clone());
                assert(texts(out@) =~= still_listed(texts(frozen@.take(i as int)), cur).push(id@));
            }
            i = i + 1;
        }
        assert(frozen@.take(frozen@.len() as int) =~= frozen@);
        out
    }
}

// ---------------------------------------------------------------------------
// Joining an access point
// ---------------------------------------------------------------------------

/// A character with ASCII uppercase letters made lowercase.
pub open spec fn ascii_lower(c: char) -> char {
    if 'A' <= c && c <= 'Z' {
        ((c as u32 + 32) as u8) as char
    } else {
        c
    }
}

/// Whether an access point's security field means it needs no password:
/// empty, `--`, or `open` in any ASCII case.
pub open spec fn is_open_security(sec: Seq<char>) -> bool {
    ||| sec.len() == 0
    ||| sec == "--"@
    ||| sec.map_values(|c: char| ascii_lower(c)) == "open"@
}

/// Whether the security field `sec` means the access point is open.
pub fn security_is_open(sec: &str) -> (r: bool)
    ensures
        r == is_open_security(sec@),
{
    proof {
        reveal_strlit("--");
        reveal_strlit("open");
    }
    let v = chars_of(sec);
    if v.len() == 0 {
        return true;
    }
    if v.len() == 2 && v[0] == '-' && v[1] == '-' {
        assert(v@ =~= "--"@);
        return true;
    }
    proof {
        if v@ == "--"@ {
            assert(v@[0] == '-' && v@[1] == '-');
        }
    }
    if v.len() != 4 {
        proof {
            assert(v@.map_values(|c: char| ascii_lower(c)).len() != "open"@.len());
        }
        return false;
    }
    let want = ['o', 'p', 'e', 'n'];
    let mut i: usize = 0;
    while i < 4
        invariant
            v@.len() == 4,
            v@ == sec@,
            want@ == "open"@,
            i <= 4,
            forall|j: int| 0 <= j < i ==> ascii_lower(#[trigger] v@[j]) == want@[j],
        decreases 4 - i,
    {
        let c = v[i];
        let l = if 'A' <= c && c <= 'Z' {
            ((c as u32 + 32) as u8) as char
        } else {
            c
        };
        assert(l == ascii_lower(v@[i as int]));
        if l != want[i] {
            proof {
                let m = v@.map_values(|c: char| ascii_lower(c));
                assert(m[i as int] == ascii_lower(v@[i as int]));
                assert(m[i as int] != "open"@[i as int]);
                assert(m != "open"@);
                reveal_strlit("--");
            }
            return false;
        }
        i = i + 1;
    }
    assert(v@.map_values(|c: char| ascii_lower(c)) =~= "open"@);
    true
}

/// The message shown when the selection is not an access point.
pub open spec fn not_an_ap() -> Seq<char> {
    "Select an AP (not a client) to connect"@
}

impl TuiState {
    /// Starts joining the selected access point: an open one is joined at
    /// once (the request comes back), a secured one opens the password
    /// prompt. The SSID shown is the network name, else the BSSID. A
    /// selected client only gets a message; no selection, or one no longer
    /// in `devices`, does nothing.
    pub fn start_wifi_connect<E>(&mut self, devices: &Table<WifiDevice<E>>) -> (r: Option<
        ConnectRequest,
    >)
        ensures
            match old(self)@.selected {
                None => r is None && final(self)@ == old(self)@,
                Some(id) => if !devices.map().contains_key(id) {
                    r is None && final(self)@ == old(self)@
                } else {
                    let d = devices.map()[id];
                    let ssid = match d.ssid {
                        Some(s) => s@,
                        None => d.mac@,
                    };
                    let sec = match d.security {
                        Some(s) => s@,
                        None => seq![],
                    };
                    if d.kind != WifiKind::Ap {
                        r is None && final(self)@ == (TuiView {
                            wifi_status: Some(not_an_ap()),
                            ..old(self)@
                        })
                    } else if is_open_security(sec) {
                        &&& r matches Some(c)
                        &&& c.bssid@ == d.mac@
                        &&& c.ssid@ == ssid
                        &&& c.password is None
                        &&& final(self)@ == old(self)@
                    } else {
                        r is None && final(self)@ == (TuiView {
                            modal: Some((d.mac@, ssid, seq![])),
                            ..old(self)@
                        })
                    }
                },
            },
    {
        let d = match &self.selected_id {
            Some(id) => match devices.get(id.as_str()) {
                Some(d) => d,
                None => return None,
            },
            None => return None,
        };
        if d.kind != WifiKind::Ap {
            proof {
                reveal_strlit("Select an AP (not a client) to connect");
            }
            self.wifi_status = Some("Select an AP (not a client) to connect".to_owned());
            return None;
        }
        let bssid = d.mac.clone();
        let ssid = match &d.ssid {
            Some(s) => s.clone(),
            None => bssid.clone(),
        };
        let open = match &d.security {
            Some(s) => security_is_open(s.as_str()),
            None => true,
        };
        if open {
            Some(ConnectRequest { bssid, ssid, password: None })
        } else {
            self.wifi_password_modal = Some(
                WifiPasswordModal { bssid, ssid, buffer: String::new() },
            );
            None
        }
    }
}

/// The arguments of the `nmcli` call that joins `bssid`, with the password
/// when there is one.
pub open spec fn connect_argv(bssid: Seq<char>, password: Option<Seq<char>>) -> Seq<Seq<char>> {
    let base = seq!["dev"@, "wifi"@, "connect"@, bssid];
    match password {
        Some(p) => base + seq!["password"@, p],
        None => base,
    }
}

/// The `nmcli` arguments that carry out `req`.
pub fn connect_args(req: &ConnectRequest) -> (r: Vec<String>)
    ensures
        texts(r@) == connect_argv(req.bssid@, opt_string(req.password)),
{
    let mut v: Vec<String> = Vec::new();
    v.push("dev".to_owned());
    v.push("wifi".to_owned());
    v.push("connect".to_owned());
    v.push(req.bssid.clone());
    match &req.password {
        Some(p) => {
            v.push("password".to_owned());
            v.push(p.clone());
        },
        None => {},
    }
    assert(texts(v@) =~= connect_argv(req.bssid@, opt_string(req.password)));
    v
}

/// The message while joining `ssid`.
pub fn connecting_message(ssid: &str) -> (r: String)
    ensures
        r@ == "Connecting to "@ + ssid@ + "…"@,
{
    crate::text::concat3("Connecting to ", ssid, "…")
}

/// The outcome message of a join: success names the network; a failure
/// gives the trimmed error output, or the trimmed normal output when the
/// error output is blank.
pub open spec fn connect_report(ssid: Seq<char>, success: bool, stderr: Seq<char>, stdout: Seq<
    char,
>) -> Seq<char> {
    if success {
        "Connected to "@ + ssid
    } else if trim(stderr).len() == 0 {
        "Connect failed: "@ + trim(stdout)
    } else {
        "Connect failed: "@ + trim(stderr)
    }
}

/// The message for a finished `nmcli` join of `ssid`.
pub fn connect_outcome(ssid: &str, success: bool, stderr: &str, stdout: &str) -> (r: String)
    ensures
        r@ == connect_report(ssid@, success, stderr@, stdout@),
{
    if success {
        return crate::text::concat2("Connected to ", ssid);
    }
    let e = trim_chars(&chars_of(stderr));
    let detail = if e.len() == 0 {
        string_of(&trim_chars(&chars_of(stdout)))
    } else {
        string_of(&e)
    };
    crate::text::concat2("Connect failed: ", detail.as_str())
}

/// The message for a join that could not be started, with the error text.
pub fn connect_error(err: &str) -> (r: String)
    ensures
        r@ == "Connect failed: "@ + err@,
{
    crate::text::concat2("Connect failed: ", err)
}

// ---------------------------------------------------------------------------
// Messages
// ---------------------------------------------------------------------------

/// The lowercase form of a text, as `str::to_lowercase` gives it (Unicode
/// case mapping).
pub uninterp spec fn lowercase(s: Seq<char>) -> Seq<char>;

/// Calls `str::to_lowercase`; the contract names its result.
#[verifier::external_body]
fn to_lowercase(s: &str) -> (r: String)
    ensures
        r@ == lowercase(s@),
{
    s.to_lowercase()
}

/// Whether a lowercased Bluetooth error points at the Bluetooth daemon or
/// a missing adapter.
pub open spec fn names_daemon_trouble(lower: Seq<char>) -> bool {
    ||| contains_seq(lower, "org.bluez"@)
    ||| contains_seq(lower, "bluetoothd"@)
    ||| contains_seq(lower, "no adapter"@)
    ||| contains_seq(lower, "no default adapter"@)
}

/// The text of a Bluetooth error `msg` whose lowercase form is `lower`:
/// with a hint to start the daemon when the error points at it.
pub open spec fn bt_error_text(msg: Seq<char>, lower: Seq<char>) -> Seq<char> {
    if names_daemon_trouble(lower) {
        msg + " — try: sudo systemctl start bluetooth"@
    } else {
        msg
    }
}

/// The text shown for the Bluetooth error `msg`, given its lowercase form
/// `lower`.
pub fn bt_error_hint(msg: String, lower: &str) -> (r: String)
    ensures
        r@ == bt_error_text(msg@, lower@),
{
    let l = chars_of(lower);
    let hit = contains_chars(&l, &chars_of("org.bluez")) || contains_chars(
        &l,
        &chars_of("bluetoothd"),
    ) || contains_chars(&l, &chars_of("no adapter")) || contains_chars(
        &l,
        &chars_of("no default adapter"),
    );
    if hit {
        crate::text::concat2(msg.as_str(), " — try: sudo systemctl start bluetooth")
    } else {
        msg
    }
}

/// The text shown for the Bluetooth error `msg`.
pub fn bt_error_display(msg: String) -> (r: String)
    ensures
        r@ == bt_error_text(msg@, lowercase(msg@)),
{
    let lower = to_lowercase(msg.as_str());
    bt_error_hint(msg, lower.as_str())
}

/// The key hints of the footer: every tab's, and joining on the WiFi tab.
pub open spec fn hints(tab: Tab) -> Seq<char> {
    let base =
        "[Tab] switch tabs  [q] quit  [↑↓] select  [n] name  [x] del name  [s] sort  [p] pause  [c] clear  [e] export"@;
    if tab == Tab::Wifi {
        base + "  [w] connect"@
    } else {
        base
    }
}

/// The footer's lines: none while an input is open; else the key hints,
/// then the status, marked, when there is one and it is to be shown.
pub open spec fn footer_text(input_active: bool, status: Option<Seq<char>>, show_status: bool, tab: Tab) -> Seq<Seq<char>> {
    if input_active {
        seq![]
    } else if show_status && status is Some {
        seq![hints(tab), "⚠ "@ + status->0]
    } else {
        seq![hints(tab)]
    }
}

/// The footer's lines (see [`footer_text`]).
pub fn footer_lines(input_active: bool, status: Option<&str>, show_status: bool, tab: Tab) -> (r: Vec<String>)
    ensures
        texts(r@) == footer_text(input_active, crate::oui::opt_str(status), show_status, tab),
{
    let mut out: Vec<String> = Vec::new();
    if input_active {
        assert(texts(out@) =~= footer_text(input_active, crate::oui::opt_str(status), show_status, tab));
        return out;
    }
    let base =
        "[Tab] switch tabs  [q] quit  [↑↓] select  [n] name  [x] del name  [s] sort  [p] pause  [c] clear  [e] export";
    let h = if tab == Tab::Wifi {
        crate::text::concat2(base, "  [w] connect")
    } else {
        base.to_owned()
    };
    out.push(h);
    if show_status {
        match status {
            Some(m) => out.push(crate::text::concat2("⚠ ", m)),
            None => {},
        }
    }
    assert(texts(out@) =~= footer_text(input_active, crate::oui::opt_str(status), show_status, tab));
    out
}

} // verus!

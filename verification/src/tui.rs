//! The dashboard's states and what each key press, each arriving series and each tick of the
//! clock does to them. The terminal drawing, the key reading and the fetching run outside;
//! they hand the session events and carry out the actions it returns.
use vstd::prelude::*;
use crate::prometheus::PrometheusTimeScale;
use crate::text::{chars_of, parse_nat, parse_unsigned, string_of};
use crate::tres_map::{longest_len, NameMap};

verus! {

/// What went wrong getting the dashboard's data.
#[derive(Debug, Clone, PartialEq, Eq)]
pub enum AppError {
    DataFetch(String),
    TaskJoin(String),
    ChannelSend(String),
    MaxFail(String),
    TimeOut,
}

/// What an error says.
pub open spec fn error_text(e: AppError) -> Seq<char> {
    match e {
        AppError::DataFetch(s) => "Failed to fetch data from source: "@ + s@,
        AppError::TaskJoin(s) => "A background task failed: "@ + s@,
        AppError::ChannelSend(s) => "Failed to send data to UI thread: "@ + s@,
        AppError::MaxFail(s) => "Failed to get maximum capacity: "@ + s@,
        AppError::TimeOut => "Data fetching timed out after 10 seconds"@,
    }
}

impl AppError {
    /// What the error says.
    pub fn message(&self) -> (s: String)
        ensures
            s@ == error_text(*self),
    {
        let t = match self {
            AppError::DataFetch(s) => crate::text::concat(&chars_of("Failed to fetch data from source: "), &chars_of(s.as_str())),
            AppError::TaskJoin(s) => crate::text::concat(&chars_of("A background task failed: "), &chars_of(s.as_str())),
            AppError::ChannelSend(s) => crate::text::concat(&chars_of("Failed to send data to UI thread: "), &chars_of(s.as_str())),
            AppError::MaxFail(s) => crate::text::concat(&chars_of("Failed to get maximum capacity: "), &chars_of(s.as_str())),
            AppError::TimeOut => chars_of("Data fetching timed out after 10 seconds"),
        };
        string_of(&t)
    }

    /// A copy of the error.
    pub fn duplicate(&self) -> (e: AppError)
        ensures
            e == *self,
    {
        match self {
            AppError::DataFetch(s) => AppError::DataFetch(s.clone()),
            AppError::TaskJoin(s) => AppError::TaskJoin(s.clone()),
            AppError::ChannelSend(s) => AppError::ChannelSend(s.clone()),
            AppError::MaxFail(s) => AppError::MaxFail(s.clone()),
            AppError::TimeOut => AppError::TimeOut,
        }
    }
}

/// The dashboard's pages.
#[derive(Debug, Clone, Copy, PartialEq, Eq)]
pub enum AppView {
    CpuByAccount,
    CpuByNode,
    GpuByType,
}

/// The page after `v`, the first following the last.
pub open spec fn view_next(v: AppView) -> AppView {
    match v {
        AppView::CpuByAccount => AppView::CpuByNode,
        AppView::CpuByNode => AppView::GpuByType,
        AppView::GpuByType => AppView::CpuByAccount,
    }
}

/// The page before `v`, the last preceding the first.
pub open spec fn view_prev(v: AppView) -> AppView {
    match v {
        AppView::CpuByAccount => AppView::GpuByType,
        AppView::CpuByNode => AppView::CpuByAccount,
        AppView::GpuByType => AppView::CpuByNode,
    }
}

/// Going back a page undoes going forward one, and the other way round; three steps forward
/// come back to the start.
pub proof fn lemma_view_next_prev(v: AppView)
    ensures
        view_prev(view_next(v)) == v,
        view_next(view_prev(v)) == v,
        view_next(view_next(view_next(v))) == v,
{
}

/// Whether the arrow keys move between the pages or scroll the charts of one.
#[derive(Debug, Clone, Copy, PartialEq, Eq)]
pub enum ScrollMode {
    Page,
    Chart,
}

impl Default for ScrollMode {
    fn default() -> (m: ScrollMode)
        ensures
            m == ScrollMode::Page,
    {
        ScrollMode::Page
    }
}

/// The entries of the main menu.
#[derive(Debug, Clone, Copy, PartialEq, Eq)]
pub enum MainMenuSelection {
    Default,
    Custom,
}

impl Default for MainMenuSelection {
    fn default() -> (m: MainMenuSelection)
        ensures
            m == MainMenuSelection::Default,
    {
        MainMenuSelection::Default
    }
}

/// The other entry.
pub open spec fn toggled(m: MainMenuSelection) -> MainMenuSelection {
    match m {
        MainMenuSelection::Default => MainMenuSelection::Custom,
        MainMenuSelection::Custom => MainMenuSelection::Default,
    }
}

impl MainMenuSelection {
    /// The other entry.
    pub fn toggle(&self) -> (m: MainMenuSelection)
        ensures
            m == toggled(*self),
    {
        match self {
            MainMenuSelection::Default => MainMenuSelection::Custom,
            MainMenuSelection::Custom => MainMenuSelection::Default,
        }
    }
}

/// Toggling twice comes back to the same entry, and toggling always moves.
pub proof fn lemma_toggle_involution(m: MainMenuSelection)
    ensures
        toggled(toggled(m)) == m,
        toggled(m) != m,
{
}

/// The widgets of the parameter form.
#[derive(Debug, Clone, Copy, PartialEq, Eq)]
pub enum ParameterFocus {
    Range,
    Unit,
    Confirm,
}

impl Default for ParameterFocus {
    fn default() -> (f: ParameterFocus)
        ensures
            f == ParameterFocus::Range,
    {
        ParameterFocus::Range
    }
}

/// The widget after `f`, the first following the last.
pub open spec fn focus_next(f: ParameterFocus) -> ParameterFocus {
    match f {
        ParameterFocus::Range => ParameterFocus::Unit,
        ParameterFocus::Unit => ParameterFocus::Confirm,
        ParameterFocus::Confirm => ParameterFocus::Range,
    }
}

impl ParameterFocus {
    /// The widget after this one, the first following the last.
    pub fn next(&self) -> (f: ParameterFocus)
        ensures
            f == focus_next(*self),
    {
        match self {
            ParameterFocus::Range => ParameterFocus::Unit,
            ParameterFocus::Unit => ParameterFocus::Confirm,
            ParameterFocus::Confirm => ParameterFocus::Range,
        }
    }
}

/// Three moves of the focus come back to the same widget, and each move changes it.
pub proof fn lemma_focus_cycle(f: ParameterFocus)
    ensures
        focus_next(focus_next(focus_next(f))) == f,
        focus_next(f) != f,
{
}

/// The parameter form: the range typed so far, the unit chosen and the focused widget.
#[derive(Debug)]
pub struct ParameterSelectionState {
    pub range_input: String,
    pub selected_unit: PrometheusTimeScale,
    pub focused_widget: ParameterFocus,
}

impl Default for ParameterSelectionState {
    fn default() -> (s: ParameterSelectionState)
        ensures
            s.range_input@ == Seq::<char>::empty(),
            s.selected_unit == PrometheusTimeScale::Days,
            s.focused_widget == ParameterFocus::Range,
    {
        ParameterSelectionState {
            range_input: String::new(),
            selected_unit: PrometheusTimeScale::Days,
            focused_widget: ParameterFocus::Range,
        }
    }
}

/// What the running jobs used, a series per group.
#[derive(Debug)]
pub struct UsageData {
    pub source_data: NameMap<Vec<u64>>,
}

/// What the available nodes held, a series per group.
#[derive(Debug)]
pub struct CapacityData {
    pub capacities: NameMap<Vec<u64>>,
}

/// One answer from the fetching tasks.
#[derive(Debug)]
pub enum FetchedData {
    CpuByAccount(Result<UsageData, AppError>),
    CpuByNode(Result<UsageData, AppError>),
    GpuByType(Result<UsageData, AppError>),
    CpuCapacityByAccount(Result<CapacityData, AppError>),
    CpuCapacityByNode(Result<CapacityData, AppError>),
    GpuCapacityByType(Result<CapacityData, AppError>),
}

/// The series of one page and how far its charts are scrolled sideways.
#[derive(Debug)]
pub struct ChartData {
    pub source_data: NameMap<Vec<u64>>,
    pub capacity_data: NameMap<Vec<u64>>,
    pub horizontal_scroll_offset: usize,
}

/// The loaded dashboard.
#[derive(Debug)]
pub struct App {
    pub current_view: AppView,
    pub scroll_offset: usize,
    pub scroll_mode: ScrollMode,
    pub cpu_by_account: ChartData,
    pub cpu_by_node: ChartData,
    pub gpu_by_type: ChartData,
    pub should_quit: bool,
    pub query_range: i64,
    pub query_time_scale: PrometheusTimeScale,
}

/// Where the dashboard is.
#[derive(Debug)]
pub enum AppState {
    MainMenu { selected: MainMenuSelection },
    ParameterSelection(ParameterSelectionState),
    Loading { tick: usize },
    Loaded(App),
    Error(AppError),
}

/// A key as the dashboard reads it.
#[derive(Debug, Clone, Copy, PartialEq, Eq)]
pub enum Key {
    Char(char),
    Up,
    Down,
    PageUp,
    PageDown,
    Left,
    Right,
    Tab,
    Enter,
    Backspace,
    Esc,
    Other,
}

/// What the loop is to do next.
#[derive(Debug, Clone, Copy, PartialEq, Eq)]
pub enum Action {
    Continue,
    Quit,
    /// Fetch every series anew over `range` steps of `unit`, on a fresh channel
    Fetch { range: i64, unit: PrometheusTimeScale },
}

/// The ticks the loading screen waits before giving up.
pub const LOADING_TIMEOUT_TICKS: usize = 100;

/// The answers the dashboard waits for before it can show anything.
pub const FETCH_COUNT: usize = 6;

/// The dashboard with the answers received so far, the query they answer, and how many bars
/// a chart shows at once.
#[derive(Debug)]
pub struct Session {
    pub state: AppState,
    pub cpu_by_account_data: Option<Result<UsageData, AppError>>,
    pub cpu_by_node_data: Option<Result<UsageData, AppError>>,
    pub gpu_by_type_data: Option<Result<UsageData, AppError>>,
    pub cpu_by_account_capacity: Option<Result<CapacityData, AppError>>,
    pub cpu_by_node_capacity: Option<Result<CapacityData, AppError>>,
    pub gpu_by_type_capacity: Option<Result<CapacityData, AppError>>,
    pub data_fetch_count: usize,
    pub current_query_range: i64,
    pub current_query_time_scale: PrometheusTimeScale,
    pub max_bars: usize,
}

pub open spec fn usage_ok(o: Option<Result<UsageData, AppError>>) -> bool {
    o matches Some(Ok(u)) ==> u.source_data.wf()
}

pub open spec fn one_if<T>(o: Option<T>) -> nat {
    if o is Some {
        1
    } else {
        0
    }
}

impl Session {
    /// How many answers are held.
    pub open spec fn held(self) -> nat {
        one_if(self.cpu_by_account_data) + one_if(self.cpu_by_node_data) + one_if(self.gpu_by_type_data)
            + one_if(self.cpu_by_account_capacity) + one_if(self.cpu_by_node_capacity) + one_if(
            self.gpu_by_type_capacity,
        )
    }

    /// Whether the session is consistent: the count of answers is the number held until the
    /// dashboard is loaded, when all of them were; the loading screen has not timed out; and
    /// the series received are well formed.
    pub open spec fn wf(self) -> bool {
        &&& self.data_fetch_count <= FETCH_COUNT
        &&& if self.state is Loaded {
            self.data_fetch_count == FETCH_COUNT
        } else {
            self.data_fetch_count == self.held()
        }
        &&& self.state matches AppState::Loading { tick } ==> tick <= LOADING_TIMEOUT_TICKS
        &&& usage_ok(self.cpu_by_account_data)
        &&& usage_ok(self.cpu_by_node_data)
        &&& usage_ok(self.gpu_by_type_data)
        &&& self.state matches AppState::Loaded(app) ==> {
            &&& app.cpu_by_account.source_data.wf()
            &&& app.cpu_by_node.source_data.wf()
            &&& app.gpu_by_type.source_data.wf()
        }
    }

    /// Whether `other` holds the same answers and query as this session.
    pub open spec fn same_data(self, other: Session) -> bool {
        &&& other.cpu_by_account_data == self.cpu_by_account_data
        &&& other.cpu_by_node_data == self.cpu_by_node_data
        &&& other.gpu_by_type_data == self.gpu_by_type_data
        &&& other.cpu_by_account_capacity == self.cpu_by_account_capacity
        &&& other.cpu_by_node_capacity == self.cpu_by_node_capacity
        &&& other.gpu_by_type_capacity == self.gpu_by_type_capacity
        &&& other.data_fetch_count == self.data_fetch_count
        &&& other.current_query_range == self.current_query_range
        &&& other.current_query_time_scale == self.current_query_time_scale
        &&& other.max_bars == self.max_bars
    }
}

/// `n` less one, not going below zero.
pub open spec fn sat_dec(n: usize) -> usize {
    if n > 0 {
        (n - 1) as usize
    } else {
        0
    }
}

/// `n` plus one, not going past the largest `usize`.
pub open spec fn sat_inc(n: usize) -> usize {
    if n < usize::MAX {
        (n + 1) as usize
    } else {
        n
    }
}

/// `a - b`, or zero where `b` is the larger.
pub open spec fn sat_sub(a: nat, b: nat) -> nat {
    if a >= b {
        (a - b) as nat
    } else {
        0
    }
}

/// The charts of the page shown.
pub open spec fn chart_of(app: App) -> ChartData {
    match app.current_view {
        AppView::CpuByAccount => app.cpu_by_account,
        AppView::CpuByNode => app.cpu_by_node,
        AppView::GpuByType => app.gpu_by_type,
    }
}

/// `app` with the charts of the page shown replaced by `c`.
pub open spec fn with_chart(app: App, c: ChartData) -> App {
    match app.current_view {
        AppView::CpuByAccount => App { cpu_by_account: c, ..app },
        AppView::CpuByNode => App { cpu_by_node: c, ..app },
        AppView::GpuByType => App { gpu_by_type: c, ..app },
    }
}

/// How far the charts can scroll sideways: past the bars the longest series has beyond
/// those shown at once, no further.
pub open spec fn max_scroll(c: ChartData, max_bars: usize) -> nat {
    sat_sub(longest_len(c.source_data@), max_bars as nat)
}

/// The charts scrolled one bar later, where they can go.
pub open spec fn scroll_right(c: ChartData, max_bars: usize) -> ChartData {
    if c.horizontal_scroll_offset < max_scroll(c, max_bars) {
        ChartData { horizontal_scroll_offset: (c.horizontal_scroll_offset + 1) as usize, ..c }
    } else {
        c
    }
}

/// The charts scrolled one bar earlier, where they can go.
pub open spec fn scroll_left(c: ChartData) -> ChartData {
    ChartData { horizontal_scroll_offset: sat_dec(c.horizontal_scroll_offset), ..c }
}

/// A key in page mode: the digits pick a page, left and right (and `h`, `l`, Tab) step
/// through them from the top, up and down (and `k`, `j`) scroll, Enter turns to the charts.
pub open spec fn page_key(app: App, key: Key) -> App {
    let next = App { current_view: view_next(app.current_view), scroll_offset: 0, ..app };
    let prev = App { current_view: view_prev(app.current_view), scroll_offset: 0, ..app };
    let up = App { scroll_offset: sat_dec(app.scroll_offset), ..app };
    let down = App { scroll_offset: sat_inc(app.scroll_offset), ..app };
    match key {
        Key::Char(c) => if c == '1' {
            App { current_view: AppView::CpuByAccount, ..app }
        } else if c == '2' {
            App { current_view: AppView::CpuByNode, ..app }
        } else if c == '3' {
            App { current_view: AppView::GpuByType, ..app }
        } else if c == 'l' {
            next
        } else if c == 'h' {
            prev
        } else if c == 'k' {
            up
        } else if c == 'j' {
            down
        } else {
            app
        },
        Key::Right => next,
        Key::Tab => next,
        Key::Left => prev,
        Key::Up => up,
        Key::PageUp => up,
        Key::Down => down,
        Key::PageDown => down,
        Key::Enter => App { scroll_mode: ScrollMode::Chart, ..app },
        _ => app,
    }
}

/// A key in chart mode: right and left (and `l`, `h`) scroll the page's charts sideways,
/// Esc goes back to page mode.
pub open spec fn chart_key(app: App, key: Key, max_bars: usize) -> App {
    let right = with_chart(app, scroll_right(chart_of(app), max_bars));
    let left = with_chart(app, scroll_left(chart_of(app)));
    match key {
        Key::Char(c) => if c == 'l' {
            right
        } else if c == 'h' {
            left
        } else {
            app
        },
        Key::Right => right,
        Key::Left => left,
        Key::Esc => App { scroll_mode: ScrollMode::Page, ..app },
        _ => app,
    }
}

/// A key on the loaded dashboard: `q` marks it to quit, and the key then acts as its scroll
/// mode has it.
pub open spec fn loaded_key(app: App, key: Key, max_bars: usize) -> App {
    let a = if key == Key::Char('q') {
        App { should_quit: true, ..app }
    } else {
        app
    };
    match a.scroll_mode {
        ScrollMode::Page => page_key(a, key),
        ScrollMode::Chart => chart_key(a, key, max_bars),
    }
}

pub open spec fn is_digit(c: char) -> bool {
    '0' <= c <= '9'
}

/// A key on the parameter form, but Enter on Confirm: as (range typed, unit, focus). Tab, and
/// Enter on the first two widgets, move the focus on; on the range, digits are typed and
/// Backspace takes the last back; on the unit, left and right (`h`, `l`) step through the
/// units.
pub open spec fn form_key(input: Seq<char>, unit: PrometheusTimeScale, focus: ParameterFocus, key: Key) -> (
    Seq<char>,
    PrometheusTimeScale,
    ParameterFocus,
) {
    let same = (input, unit, focus);
    let prev = (input, crate::prometheus::scale_prev(unit), focus);
    let next = (input, crate::prometheus::scale_next(unit), focus);
    match key {
        Key::Tab => (input, unit, focus_next(focus)),
        Key::Enter => if focus == ParameterFocus::Range || focus == ParameterFocus::Unit {
            (input, unit, focus_next(focus))
        } else {
            same
        },
        Key::Char(c) => if focus == ParameterFocus::Range && is_digit(c) {
            (input.push(c), unit, focus)
        } else if focus == ParameterFocus::Unit && c == 'h' {
            prev
        } else if focus == ParameterFocus::Unit && c == 'l' {
            next
        } else {
            same
        },
        Key::Backspace => if focus == ParameterFocus::Range {
            (
                if input.len() > 0 {
                    input.drop_last()
                } else {
                    input
                },
                unit,
                focus,
            )
        } else {
            same
        },
        Key::Left => if focus == ParameterFocus::Unit {
            prev
        } else {
            same
        },
        Key::Right => if focus == ParameterFocus::Unit {
            next
        } else {
            same
        },
        _ => same,
    }
}

/// The range the form confirms: the text typed read as a whole number, where it is one
/// above zero. (A signed read agrees with this on every positive value.)
pub open spec fn confirmed_range(input: Seq<char>) -> Option<i64> {
    match parse_nat(input, i64::MAX as nat) {
        Some(n) => if n > 0 {
            Some(n as i64)
        } else {
            None
        },
        None => None,
    }
}

/// Whether a key moves the main menu's selection.
pub open spec fn menu_move(key: Key) -> bool {
    ||| key == Key::Up
    ||| key == Key::PageUp
    ||| key == Key::Down
    ||| key == Key::PageDown
    ||| key == Key::Char('k')
    ||| key == Key::Char('j')
}

pub open spec fn usage_error(o: Option<Result<UsageData, AppError>>) -> Option<AppError> {
    match o {
        Some(Err(e)) => Some(e),
        _ => None,
    }
}

pub open spec fn capacity_error(o: Option<Result<CapacityData, AppError>>) -> Option<AppError> {
    match o {
        Some(Err(e)) => Some(e),
        _ => None,
    }
}

/// The first error among the answers: the usage of each page in turn, then the capacities.
pub open spec fn first_error(s: Session) -> Option<AppError> {
    if usage_error(s.cpu_by_account_data) is Some {
        usage_error(s.cpu_by_account_data)
    } else if usage_error(s.cpu_by_node_data) is Some {
        usage_error(s.cpu_by_node_data)
    } else if usage_error(s.gpu_by_type_data) is Some {
        usage_error(s.gpu_by_type_data)
    } else if capacity_error(s.cpu_by_account_capacity) is Some {
        capacity_error(s.cpu_by_account_capacity)
    } else if capacity_error(s.cpu_by_node_capacity) is Some {
        capacity_error(s.cpu_by_node_capacity)
    } else {
        capacity_error(s.gpu_by_type_capacity)
    }
}

pub open spec fn usage_of(o: Option<Result<UsageData, AppError>>) -> NameMap<Vec<u64>> {
    match o {
        Some(Ok(u)) => u.source_data,
        _ => arbitrary(),
    }
}

pub open spec fn capacity_of(o: Option<Result<CapacityData, AppError>>) -> NameMap<Vec<u64>> {
    match o {
        Some(Ok(c)) => c.capacities,
        _ => arbitrary(),
    }
}

/// A page's charts from its usage and capacity, scrolled to show the latest bars.
pub open spec fn chart_from(usage: NameMap<Vec<u64>>, capacity: NameMap<Vec<u64>>, max_bars: usize) -> ChartData {
    ChartData {
        source_data: usage,
        capacity_data: capacity,
        horizontal_scroll_offset: sat_sub(longest_len(usage@), max_bars as nat) as usize,
    }
}

/// The dashboard the answers of `s` make: on the first page, in page mode, unscrolled.
pub open spec fn loaded_app(s: Session) -> App {
    App {
        current_view: AppView::CpuByAccount,
        scroll_offset: 0,
        scroll_mode: ScrollMode::Page,
        cpu_by_account: chart_from(usage_of(s.cpu_by_account_data), capacity_of(s.cpu_by_account_capacity), s.max_bars),
        cpu_by_node: chart_from(usage_of(s.cpu_by_node_data), capacity_of(s.cpu_by_node_capacity), s.max_bars),
        gpu_by_type: chart_from(usage_of(s.gpu_by_type_data), capacity_of(s.gpu_by_type_capacity), s.max_bars),
        should_quit: false,
        query_range: s.current_query_range,
        query_time_scale: s.current_query_time_scale,
    }
}

/// Whether `new` is `old` once the dashboard is built from its answers: the error screen for
/// the first error, the answers kept; or else the loaded dashboard, the answers handed to it.
pub open spec fn built(old: Session, new: Session) -> bool {
    match first_error(old) {
        Some(e) => new.state == AppState::Error(e) && old.same_data(new),
        None => {
            &&& new.state == AppState::Loaded(loaded_app(old))
            &&& new.cpu_by_account_data is None
            &&& new.cpu_by_node_data is None
            &&& new.gpu_by_type_data is None
            &&& new.cpu_by_account_capacity is None
            &&& new.cpu_by_node_capacity is None
            &&& new.gpu_by_type_capacity is None
            &&& new.data_fetch_count == old.data_fetch_count
            &&& new.current_query_range == old.current_query_range
            &&& new.current_query_time_scale == old.current_query_time_scale
            &&& new.max_bars == old.max_bars
        },
    }
}

/// Whether `new` and `action` are what key `key` makes of session `old` (see `form_key`,
/// `loaded_key`, `built`). On the loaded dashboard `q` marks it to quit; anywhere else it
/// quits at once.
pub open spec fn key_step(old: Session, key: Key, new: Session, action: Action) -> bool {
    match old.state {
        AppState::Loaded(app) => {
            &&& new.state == AppState::Loaded(loaded_key(app, key, old.max_bars))
            &&& old.same_data(new)
            &&& action == Action::Continue
        },
        _ => if key == Key::Char('q') {
            new == old && action == Action::Quit
        } else {
            match old.state {
                AppState::MainMenu { selected } => if menu_move(key) {
                    &&& new.state == AppState::MainMenu { selected: toggled(selected) }
                    &&& old.same_data(new)
                    &&& action == Action::Continue
                } else if key == Key::Enter {
                    &&& action == Action::Continue
                    &&& match selected {
                        MainMenuSelection::Default => if old.data_fetch_count == FETCH_COUNT {
                            built(old, new)
                        } else {
                            new.state == AppState::Loading { tick: 0 } && old.same_data(new)
                        },
                        MainMenuSelection::Custom => {
                            &&& new.state matches AppState::ParameterSelection(p) && p.range_input@
                                == Seq::<char>::empty() && p.selected_unit == PrometheusTimeScale::Days
                                && p.focused_widget == ParameterFocus::Range
                            &&& old.same_data(new)
                        },
                    }
                } else {
                    new == old && action == Action::Continue
                },
                AppState::ParameterSelection(ps) => if key == Key::Enter && ps.focused_widget
                    == ParameterFocus::Confirm {
                    match confirmed_range(ps.range_input@) {
                        Some(r) => {
                            &&& new.state == AppState::Loading { tick: 0 }
                            &&& new.cpu_by_account_data is None
                            &&& new.cpu_by_node_data is None
                            &&& new.gpu_by_type_data is None
                            &&& new.cpu_by_account_capacity is None
                            &&& new.cpu_by_node_capacity is None
                            &&& new.gpu_by_type_capacity is None
                            &&& new.data_fetch_count == 0
                            &&& new.current_query_range == r
                            &&& new.current_query_time_scale == ps.selected_unit
                            &&& new.max_bars == old.max_bars
                            &&& action == Action::Fetch { range: r, unit: ps.selected_unit }
                        },
                        None => new == old && action == Action::Continue,
                    }
                } else {
                    &&& new.state matches AppState::ParameterSelection(p) && (
                        p.range_input@,
                        p.selected_unit,
                        p.focused_widget,
                    ) == form_key(ps.range_input@, ps.selected_unit, ps.focused_widget, key)
                    &&& old.same_data(new)
                    &&& action == Action::Continue
                },
                _ => new == old && action == Action::Continue,
            }
        },
    }
}

/// Whether `new` and `action` are what a tick of the clock makes of `old`: the loading
/// screen counts the tick, gives up with a time-out past the limit, and otherwise builds the
/// dashboard once every answer is in; a dashboard marked to quit quits.
pub open spec fn tick_step(old: Session, new: Session, action: Action) -> bool {
    match old.state {
        AppState::Loading { tick } => {
            &&& action == Action::Continue
            &&& if tick + 1 > LOADING_TIMEOUT_TICKS {
                new.state == AppState::Error(AppError::TimeOut) && old.same_data(new)
            } else if old.data_fetch_count == FETCH_COUNT {
                built(old, new)
            } else {
                new.state == AppState::Loading { tick: (tick + 1) as usize } && old.same_data(new)
            }
        },
        AppState::Loaded(app) => new == old && action == (if app.should_quit {
            Action::Quit
        } else {
            Action::Continue
        }),
        _ => new == old && action == Action::Continue,
    }
}

/// Whether `new` is `old` with the answer `data` received and counted.
pub open spec fn received(old: Session, data: FetchedData, new: Session) -> bool {
    &&& new.state == old.state
    &&& new.data_fetch_count == old.data_fetch_count + 1
    &&& new.current_query_range == old.current_query_range
    &&& new.current_query_time_scale == old.current_query_time_scale
    &&& new.max_bars == old.max_bars
    &&& new.cpu_by_account_data == (if let FetchedData::CpuByAccount(r) = data { Some(r) } else { old.cpu_by_account_data })
    &&& new.cpu_by_node_data == (if let FetchedData::CpuByNode(r) = data { Some(r) } else { old.cpu_by_node_data })
    &&& new.gpu_by_type_data == (if let FetchedData::GpuByType(r) = data { Some(r) } else { old.gpu_by_type_data })
    &&& new.cpu_by_account_capacity == (if let FetchedData::CpuCapacityByAccount(r) = data { Some(r) } else { old.cpu_by_account_capacity })
    &&& new.cpu_by_node_capacity == (if let FetchedData::CpuCapacityByNode(r) = data { Some(r) } else { old.cpu_by_node_capacity })
    &&& new.gpu_by_type_capacity == (if let FetchedData::GpuCapacityByType(r) = data { Some(r) } else { old.gpu_by_type_capacity })
}

/// Whether the answer of `data`'s kind is already held.
pub open spec fn holds_kind(s: Session, data: FetchedData) -> bool {
    match data {
        FetchedData::CpuByAccount(_) => s.cpu_by_account_data is Some,
        FetchedData::CpuByNode(_) => s.cpu_by_node_data is Some,
        FetchedData::GpuByType(_) => s.gpu_by_type_data is Some,
        FetchedData::CpuCapacityByAccount(_) => s.cpu_by_account_capacity is Some,
        FetchedData::CpuCapacityByNode(_) => s.cpu_by_node_capacity is Some,
        FetchedData::GpuCapacityByType(_) => s.gpu_by_type_capacity is Some,
    }
}

/// Whether an answer's series are well formed.
pub open spec fn data_ok(data: FetchedData) -> bool {
    match data {
        FetchedData::CpuByAccount(r) => usage_ok(Some(r)),
        FetchedData::CpuByNode(r) => usage_ok(Some(r)),
        FetchedData::GpuByType(r) => usage_ok(Some(r)),
        _ => true,
    }
}

fn first_error_exec(s: &Session) -> (e: Option<AppError>)
    ensures
        e == first_error(*s),
{
    if let Some(Err(e)) = &s.cpu_by_account_data {
        return Some(e.duplicate());
    }
    if let Some(Err(e)) = &s.cpu_by_node_data {
        return Some(e.duplicate());
    }
    if let Some(Err(e)) = &s.gpu_by_type_data {
        return Some(e.duplicate());
    }
    if let Some(Err(e)) = &s.cpu_by_account_capacity {
        return Some(e.duplicate());
    }
    if let Some(Err(e)) = &s.cpu_by_node_capacity {
        return Some(e.duplicate());
    }
    if let Some(Err(e)) = &s.gpu_by_type_capacity {
        return Some(e.duplicate());
    }
    None
}

fn chart_from_exec(usage: UsageData, capacity: CapacityData, max_bars: usize) -> (c: ChartData)
    requires
        usage.source_data.wf(),
    ensures
        c == chart_from(usage.source_data, capacity.capacities, max_bars),
{
    let longest = usage.source_data.longest();
    let offset = if longest >= max_bars {
        longest - max_bars
    } else {
        0
    };
    ChartData { source_data: usage.source_data, capacity_data: capacity.capacities, horizontal_scroll_offset: offset }
}

/// Builds the dashboard from the answers held (see `built`).
fn build_loaded_app(s: Session) -> (r: Session)
    requires
        s.cpu_by_account_data is Some,
        s.cpu_by_node_data is Some,
        s.gpu_by_type_data is Some,
        s.cpu_by_account_capacity is Some,
        s.cpu_by_node_capacity is Some,
        s.gpu_by_type_capacity is Some,
        usage_ok(s.cpu_by_account_data),
        usage_ok(s.cpu_by_node_data),
        usage_ok(s.gpu_by_type_data),
    ensures
        built(s, r),
{
    let err = first_error_exec(&s);
    if let Some(e) = err {
        return Session { state: AppState::Error(e), ..s };
    }
    let ghost old = s;
    let Session {
        state: _,
        cpu_by_account_data,
        cpu_by_node_data,
        gpu_by_type_data,
        cpu_by_account_capacity,
        cpu_by_node_capacity,
        gpu_by_type_capacity,
        data_fetch_count,
        current_query_range,
        current_query_time_scale,
        max_bars,
    } = s;
    let a = chart_from_exec(cpu_by_account_data.unwrap().unwrap(), cpu_by_account_capacity.unwrap().unwrap(), max_bars);
    let n = chart_from_exec(cpu_by_node_data.unwrap().unwrap(), cpu_by_node_capacity.unwrap().unwrap(), max_bars);
    let g = chart_from_exec(gpu_by_type_data.unwrap().unwrap(), gpu_by_type_capacity.unwrap().unwrap(), max_bars);
    let app = App {
        current_view: AppView::CpuByAccount,
        scroll_offset: 0,
        scroll_mode: ScrollMode::Page,
        cpu_by_account: a,
        cpu_by_node: n,
        gpu_by_type: g,
        should_quit: false,
        query_range: current_query_range,
        query_time_scale: current_query_time_scale,
    };
    assert(app == loaded_app(old));
    Session {
        state: AppState::Loaded(app),
        cpu_by_account_data: None,
        cpu_by_node_data: None,
        gpu_by_type_data: None,
        cpu_by_account_capacity: None,
        cpu_by_node_capacity: None,
        gpu_by_type_capacity: None,
        data_fetch_count,
        current_query_range,
        current_query_time_scale,
        max_bars,
    }
}

impl Session {
    /// A session on the main menu with nothing received, for the default query of seven
    /// days, whose charts show `max_bars` bars at once.
    pub fn new(max_bars: usize) -> (s: Session)
        ensures
            s.wf(),
            s.state == (AppState::MainMenu { selected: MainMenuSelection::Default }),
            s.held() == 0,
            s.data_fetch_count == 0,
            s.current_query_range == 7,
            s.current_query_time_scale == PrometheusTimeScale::Days,
            s.max_bars == max_bars,
    {
        Session {
            state: AppState::MainMenu { selected: MainMenuSelection::Default },
            cpu_by_account_data: None,
            cpu_by_node_data: None,
            gpu_by_type_data: None,
            cpu_by_account_capacity: None,
            cpu_by_node_capacity: None,
            gpu_by_type_capacity: None,
            data_fetch_count: 0,
            current_query_range: 7,
            current_query_time_scale: PrometheusTimeScale::Days,
            max_bars,
        }
    }

    /// Whether the session still waits for answers.
    pub fn wants_data(&self) -> (b: bool)
        ensures
            b == (self.data_fetch_count < FETCH_COUNT),
    {
        self.data_fetch_count < FETCH_COUNT
    }

    /// Whether an answer of `data`'s kind is already held.
    pub fn holds(&self, data: &FetchedData) -> (b: bool)
        ensures
            b == holds_kind(*self, *data),
    {
        match data {
            FetchedData::CpuByAccount(_) => self.cpu_by_account_data.is_some(),
            FetchedData::CpuByNode(_) => self.cpu_by_node_data.is_some(),
            FetchedData::GpuByType(_) => self.gpu_by_type_data.is_some(),
            FetchedData::CpuCapacityByAccount(_) => self.cpu_by_account_capacity.is_some(),
            FetchedData::CpuCapacityByNode(_) => self.cpu_by_node_capacity.is_some(),
            FetchedData::GpuCapacityByType(_) => self.gpu_by_type_capacity.is_some(),
        }
    }

    /// Takes in one answer while the session still waits for answers, each kind once.
    pub fn receive(self, data: FetchedData) -> (s: Session)
        requires
            self.wf(),
            self.data_fetch_count < FETCH_COUNT,
            !holds_kind(self, data),
            data_ok(data),
        ensures
            s.wf(),
            received(self, data, s),
    {
        let count = self.data_fetch_count + 1;
        match data {
            FetchedData::CpuByAccount(r) => Session { cpu_by_account_data: Some(r), data_fetch_count: count, ..self },
            FetchedData::CpuByNode(r) => Session { cpu_by_node_data: Some(r), data_fetch_count: count, ..self },
            FetchedData::GpuByType(r) => Session { gpu_by_type_data: Some(r), data_fetch_count: count, ..self },
            FetchedData::CpuCapacityByAccount(r) => Session { cpu_by_account_capacity: Some(r), data_fetch_count: count, ..self },
            FetchedData::CpuCapacityByNode(r) => Session { cpu_by_node_capacity: Some(r), data_fetch_count: count, ..self },
            FetchedData::GpuCapacityByType(r) => Session { gpu_by_type_capacity: Some(r), data_fetch_count: count, ..self },
        }
    }
}

fn is_char(key: Key, c: char) -> (b: bool)
    ensures
        b == (key == Key::Char(c)),
{
    match key {
        Key::Char(k) => k == c,
        _ => false,
    }
}

fn page_key_exec(app: App, key: Key) -> (r: App)
    ensures
        r == page_key(app, key),
{
    let next = match key {
        Key::Right | Key::Tab => true,
        Key::Char(c) => c == 'l',
        _ => false,
    };
    let prev = match key {
        Key::Left => true,
        Key::Char(c) => c == 'h',
        _ => false,
    };
    let up = match key {
        Key::Up | Key::PageUp => true,
        Key::Char(c) => c == 'k',
        _ => false,
    };
    let down = match key {
        Key::Down | Key::PageDown => true,
        Key::Char(c) => c == 'j',
        _ => false,
    };
    if is_char(key, '1') {
        App { current_view: AppView::CpuByAccount, ..app }
    } else if is_char(key, '2') {
        App { current_view: AppView::CpuByNode, ..app }
    } else if is_char(key, '3') {
        App { current_view: AppView::GpuByType, ..app }
    } else if next {
        let v = match app.current_view {
            AppView::CpuByAccount => AppView::CpuByNode,
            AppView::CpuByNode => AppView::GpuByType,
            AppView::GpuByType => AppView::CpuByAccount,
        };
        App { current_view: v, scroll_offset: 0, ..app }
    } else if prev {
        let v = match app.current_view {
            AppView::CpuByAccount => AppView::GpuByType,
            AppView::CpuByNode => AppView::CpuByAccount,
            AppView::GpuByType => AppView::CpuByNode,
        };
        App { current_view: v, scroll_offset: 0, ..app }
    } else if up {
        let o = if app.scroll_offset > 0 {
            app.scroll_offset - 1
        } else {
            0
        };
        App { scroll_offset: o, ..app }
    } else if down {
        let o = if app.scroll_offset < usize::MAX {
            app.scroll_offset + 1
        } else {
            app.scroll_offset
        };
        App { scroll_offset: o, ..app }
    } else if let Key::Enter = key {
        App { scroll_mode: ScrollMode::Chart, ..app }
    } else {
        app
    }
}

fn scroll_right_exec(c: ChartData, max_bars: usize) -> (r: ChartData)
    requires
        c.source_data.wf(),
    ensures
        r == scroll_right(c, max_bars),
{
    let longest = c.source_data.longest();
    let max_h = if longest >= max_bars {
        longest - max_bars
    } else {
        0
    };
    if c.horizontal_scroll_offset < max_h {
        let o = c.horizontal_scroll_offset + 1;
        ChartData { horizontal_scroll_offset: o, ..c }
    } else {
        c
    }
}

fn scroll_left_exec(c: ChartData) -> (r: ChartData)
    ensures
        r == scroll_left(c),
{
    let o = if c.horizontal_scroll_offset > 0 {
        c.horizontal_scroll_offset - 1
    } else {
        0
    };
    ChartData { horizontal_scroll_offset: o, ..c }
}

fn chart_key_exec(app: App, key: Key, max_bars: usize) -> (r: App)
    requires
        app.cpu_by_account.source_data.wf(),
        app.cpu_by_node.source_data.wf(),
        app.gpu_by_type.source_data.wf(),
    ensures
        r == chart_key(app, key, max_bars),
{
    let right = match key {
        Key::Right => true,
        Key::Char(c) => c == 'l',
        _ => false,
    };
    let left = match key {
        Key::Left => true,
        Key::Char(c) => c == 'h',
        _ => false,
    };
    if right || left {
        let App {
            current_view,
            scroll_offset,
            scroll_mode,
            cpu_by_account,
            cpu_by_node,
            gpu_by_type,
            should_quit,
            query_range,
            query_time_scale,
        } = app;
        let (a, n, g) = match current_view {
            AppView::CpuByAccount => (
                if right {
                    scroll_right_exec(cpu_by_account, max_bars)
                } else {
                    scroll_left_exec(cpu_by_account)
                },
                cpu_by_node,
                gpu_by_type,
            ),
            AppView::CpuByNode => (
                cpu_by_account,
                if right {
                    scroll_right_exec(cpu_by_node, max_bars)
                } else {
                    scroll_left_exec(cpu_by_node)
                },
                gpu_by_type,
            ),
            AppView::GpuByType => (
                cpu_by_account,
                cpu_by_node,
                if right {
                    scroll_right_exec(gpu_by_type, max_bars)
                } else {
                    scroll_left_exec(gpu_by_type)
                },
            ),
        };
        App {
            current_view,
            scroll_offset,
            scroll_mode,
            cpu_by_account: a,
            cpu_by_node: n,
            gpu_by_type: g,
            should_quit,
            query_range,
            query_time_scale,
        }
    } else if let Key::Esc = key {
        App { scroll_mode: ScrollMode::Page, ..app }
    } else {
        app
    }
}

fn loaded_key_exec(app: App, key: Key, max_bars: usize) -> (r: App)
    requires
        app.cpu_by_account.source_data.wf(),
        app.cpu_by_node.source_data.wf(),
        app.gpu_by_type.source_data.wf(),
    ensures
        r == loaded_key(app, key, max_bars),
        r.cpu_by_account.source_data.wf(),
        r.cpu_by_node.source_data.wf(),
        r.gpu_by_type.source_data.wf(),
{
    let a = if is_char(key, 'q') {
        App { should_quit: true, ..app }
    } else {
        app
    };
    match a.scroll_mode {
        ScrollMode::Page => page_key_exec(a, key),
        ScrollMode::Chart => chart_key_exec(a, key, max_bars),
    }
}

fn form_key_exec(ps: ParameterSelectionState, key: Key) -> (r: ParameterSelectionState)
    ensures
        (r.range_input@, r.selected_unit, r.focused_widget) == form_key(
            ps.range_input@,
            ps.selected_unit,
            ps.focused_widget,
            key,
        ),
{
    let ParameterSelectionState { range_input, selected_unit, focused_widget } = ps;
    let on_range = match focused_widget {
        ParameterFocus::Range => true,
        _ => false,
    };
    let on_unit = match focused_widget {
        ParameterFocus::Unit => true,
        _ => false,
    };
    match key {
        Key::Tab => ParameterSelectionState { range_input, selected_unit, focused_widget: focused_widget.next() },
        Key::Enter => if on_range || on_unit {
            ParameterSelectionState { range_input, selected_unit, focused_widget: focused_widget.next() }
        } else {
            ParameterSelectionState { range_input, selected_unit, focused_widget }
        },
        Key::Char(c) => if on_range && '0' <= c && c <= '9' {
            let mut cs = chars_of(range_input.as_str());
            cs.push(c);
            ParameterSelectionState { range_input: string_of(&cs), selected_unit, focused_widget }
        } else if on_unit && c == 'h' {
            ParameterSelectionState { range_input, selected_unit: selected_unit.prev(), focused_widget }
        } else if on_unit && c == 'l' {
            ParameterSelectionState { range_input, selected_unit: selected_unit.next(), focused_widget }
        } else {
            ParameterSelectionState { range_input, selected_unit, focused_widget }
        },
        Key::Backspace => if on_range {
            let cs = chars_of(range_input.as_str());
            if cs.len() > 0 {
                let shorter = crate::text::copy_range(&cs, 0, cs.len() - 1);
                assert(shorter@ =~= range_input@.drop_last());
                ParameterSelectionState { range_input: string_of(&shorter), selected_unit, focused_widget }
            } else {
                ParameterSelectionState { range_input, selected_unit, focused_widget }
            }
        } else {
            ParameterSelectionState { range_input, selected_unit, focused_widget }
        },
        Key::Left => if on_unit {
            ParameterSelectionState { range_input, selected_unit: selected_unit.prev(), focused_widget }
        } else {
            ParameterSelectionState { range_input, selected_unit, focused_widget }
        },
        Key::Right => if on_unit {
            ParameterSelectionState { range_input, selected_unit: selected_unit.next(), focused_widget }
        } else {
            ParameterSelectionState { range_input, selected_unit, focused_widget }
        },
        _ => ParameterSelectionState { range_input, selected_unit, focused_widget },
    }
}

/// The range the form confirms (see `confirmed_range`).
fn confirmed_range_exec(input: &String) -> (r: Option<i64>)
    ensures
        r == confirmed_range(input@),
{
    let cs = chars_of(input.as_str());
    match parse_unsigned(&cs, i64::MAX as u64) {
        Some(n) => if n > 0 {
            Some(n as i64)
        } else {
            None
        },
        None => None,
    }
}

impl Session {
    /// What a key press makes of the session, and what the loop is to do (see `key_step`).
    pub fn on_key(self, key: Key) -> (r: (Session, Action))
        requires
            self.wf(),
        ensures
            r.0.wf(),
            key_step(self, key, r.0, r.1),
    {
        let ghost old = self;
        let max_bars = self.max_bars;
        let count = self.data_fetch_count;
        match self.state {
            AppState::Loaded(app) => {
                let app = loaded_key_exec(app, key, max_bars);
                (Session { state: AppState::Loaded(app), ..self }, Action::Continue)
            },
            AppState::MainMenu { selected } => {
                if is_char(key, 'q') {
                    return (Session { state: AppState::MainMenu { selected }, ..self }, Action::Quit);
                }
                let moves = match key {
                    Key::Up | Key::PageUp | Key::Down | Key::PageDown => true,
                    Key::Char(c) => c == 'k' || c == 'j',
                    _ => false,
                };
                if moves {
                    (Session { state: AppState::MainMenu { selected: selected.toggle() }, ..self }, Action::Continue)
                } else if let Key::Enter = key {
                    match selected {
                        MainMenuSelection::Default => {
                            if count == FETCH_COUNT {
                                let s = Session { state: AppState::MainMenu { selected }, ..self };
                                assert(s == old);
                                (build_loaded_app(s), Action::Continue)
                            } else {
                                (Session { state: AppState::Loading { tick: 0 }, ..self }, Action::Continue)
                            }
                        },
                        MainMenuSelection::Custom => {
                            let ps = ParameterSelectionState::default();
                            (Session { state: AppState::ParameterSelection(ps), ..self }, Action::Continue)
                        },
                    }
                } else {
                    (Session { state: AppState::MainMenu { selected }, ..self }, Action::Continue)
                }
            },
            AppState::ParameterSelection(ps) => {
                if is_char(key, 'q') {
                    return (Session { state: AppState::ParameterSelection(ps), ..self }, Action::Quit);
                }
                let confirm = match (key, ps.focused_widget) {
                    (Key::Enter, ParameterFocus::Confirm) => true,
                    _ => false,
                };
                if confirm {
                    match confirmed_range_exec(&ps.range_input) {
                        Some(range) => {
                            let unit = ps.selected_unit;
                            let s = Session {
                                state: AppState::Loading { tick: 0 },
                                cpu_by_account_data: None,
                                cpu_by_node_data: None,
                                gpu_by_type_data: None,
                                cpu_by_account_capacity: None,
                                cpu_by_node_capacity: None,
                                gpu_by_type_capacity: None,
                                data_fetch_count: 0,
                                current_query_range: range,
                                current_query_time_scale: unit,
                                max_bars,
                            };
                            (s, Action::Fetch { range, unit })
                        },
                        None => (Session { state: AppState::ParameterSelection(ps), ..self }, Action::Continue),
                    }
                } else {
                    let ps = form_key_exec(ps, key);
                    (Session { state: AppState::ParameterSelection(ps), ..self }, Action::Continue)
                }
            },
            AppState::Loading { tick } => {
                let s = Session { state: AppState::Loading { tick }, ..self };
                if is_char(key, 'q') {
                    (s, Action::Quit)
                } else {
                    (s, Action::Continue)
                }
            },
            AppState::Error(e) => {
                let s = Session { state: AppState::Error(e), ..self };
                if is_char(key, 'q') {
                    (s, Action::Quit)
                } else {
                    (s, Action::Continue)
                }
            },
        }
    }

    /// What a tick of the clock makes of the session, and what the loop is to do (see
    /// `tick_step`).
    pub fn tick(self) -> (r: (Session, Action))
        requires
            self.wf(),
        ensures
            r.0.wf(),
            tick_step(self, r.0, r.1),
    {
        let ghost old = self;
        match self.state {
            AppState::Loading { tick } => {
                let t = tick + 1;
                if t > LOADING_TIMEOUT_TICKS {
                    (Session { state: AppState::Error(AppError::TimeOut), ..self }, Action::Continue)
                } else if self.data_fetch_count == FETCH_COUNT {
                    let s = Session { state: AppState::Loading { tick }, ..self };
                    assert(s == old);
                    (build_loaded_app(s), Action::Continue)
                } else {
                    (Session { state: AppState::Loading { tick: t }, ..self }, Action::Continue)
                }
            },
            AppState::Loaded(app) => {
                let quit = app.should_quit;
                let s = Session { state: AppState::Loaded(app), ..self };
                if quit {
                    (s, Action::Quit)
                } else {
                    (s, Action::Continue)
                }
            },
            AppState::MainMenu { selected } => (Session { state: AppState::MainMenu { selected }, ..self }, Action::Continue),
            AppState::ParameterSelection(ps) => (Session { state: AppState::ParameterSelection(ps), ..self }, Action::Continue),
            AppState::Error(e) => (Session { state: AppState::Error(e), ..self }, Action::Continue),
        }
    }
}

} // verus!

use fi_slurm::screens::{footer, tab_position, tab_titles};
use fi_slurm::charts::{chart_page, DisplayMode};
use fi_slurm::prometheus::PrometheusTimeScale;
use fi_slurm::tres_map::NameMap;
use fi_slurm::tui::{
    Action, App, AppError, AppState, AppView, CapacityData, ChartData, FetchedData, Key, MainMenuSelection,
    ParameterFocus, ScrollMode, Session, UsageData,
};

fn series_map(entries: &[(&str, Vec<u64>)]) -> NameMap<Vec<u64>> {
    let mut m = NameMap::new();
    for (k, v) in entries {
        m.insert(k.to_string(), v.clone());
    }
    m
}

fn all_answers(session: Session, failing: Option<AppError>) -> Session {
    let usage = |n: u64| Ok(UsageData { source_data: series_map(&[("a", (0..n).collect())]) });
    let cap = || Ok(CapacityData { capacities: series_map(&[("Total", vec![10, 10, 10])]) });
    let mut s = session;
    let first = match failing {
        Some(e) => Err(e),
        None => usage(5),
    };
    for data in [
        FetchedData::CpuByAccount(first),
        FetchedData::CpuByNode(usage(2)),
        FetchedData::GpuByType(usage(3)),
        FetchedData::CpuCapacityByAccount(cap()),
        FetchedData::CpuCapacityByNode(cap()),
        FetchedData::GpuCapacityByType(cap()),
    ] {
        assert!(s.wants_data());
        assert!(!s.holds(&data));
        s = s.receive(data);
    }
    assert!(!s.wants_data());
    s
}

#[test]
fn tui_menu_toggles_and_quits() {
    let s = Session::new(4);
    let (s, a) = s.on_key(Key::Down);
    assert_eq!(a, Action::Continue);
    assert!(matches!(s.state, AppState::MainMenu { selected: MainMenuSelection::Custom }));
    let (s, _) = s.on_key(Key::Char('k'));
    assert!(matches!(s.state, AppState::MainMenu { selected: MainMenuSelection::Default }));
    assert_eq!(MainMenuSelection::Default.toggle().toggle(), MainMenuSelection::Default);
    let (_, a) = s.on_key(Key::Char('q'));
    assert_eq!(a, Action::Quit);
}

#[test]
fn tui_default_dashboard_waits_then_loads() {
    let s = Session::new(4);
    let (s, _) = s.on_key(Key::Enter);
    assert!(matches!(s.state, AppState::Loading { tick: 0 }));
    let s = all_answers(s, None);
    let (s, a) = s.tick();
    assert_eq!(a, Action::Continue);
    match &s.state {
        AppState::Loaded(app) => {
            assert_eq!(app.current_view, AppView::CpuByAccount);
            assert_eq!(app.scroll_mode, ScrollMode::Page);
            assert_eq!(app.cpu_by_account.horizontal_scroll_offset, 1);
            assert_eq!(app.cpu_by_node.horizontal_scroll_offset, 0);
            assert_eq!(app.query_range, 7);
            assert_eq!(app.query_time_scale, PrometheusTimeScale::Days);
        },
        other => panic!("not loaded: {other:?}"),
    }
}

#[test]
fn tui_enter_after_every_answer_loads_at_once() {
    let s = all_answers(Session::new(4), None);
    let (s, _) = s.on_key(Key::Enter);
    assert!(matches!(s.state, AppState::Loaded(_)));
}

#[test]
fn tui_an_error_answer_shows_the_error_screen() {
    let s = all_answers(Session::new(4), Some(AppError::DataFetch("boom".to_string())));
    let (s, _) = s.on_key(Key::Enter);
    match &s.state {
        AppState::Error(e) => assert_eq!(e.message(), "Failed to fetch data from source: boom"),
        other => panic!("not an error: {other:?}"),
    }
}

#[test]
fn tui_loading_times_out() {
    let s = Session::new(4);
    let (mut s, _) = s.on_key(Key::Enter);
    for _ in 0..100 {
        s = s.tick().0;
        assert!(matches!(s.state, AppState::Loading { .. }));
    }
    let (s, _) = s.tick();
    match &s.state {
        AppState::Error(e) => {
            assert_eq!(*e, AppError::TimeOut);
            assert_eq!(e.message(), "Data fetching timed out after 10 seconds");
        },
        other => panic!("not timed out: {other:?}"),
    }
}

#[test]
fn tui_custom_query_form() {
    let s = Session::new(4);
    let (s, _) = s.on_key(Key::Down);
    let (s, _) = s.on_key(Key::Enter);
    let (s, _) = s.on_key(Key::Char('1'));
    let (s, _) = s.on_key(Key::Char('x'));
    let (s, _) = s.on_key(Key::Char('2'));
    let (s, _) = s.on_key(Key::Backspace);
    let (s, _) = s.on_key(Key::Char('4'));
    match &s.state {
        AppState::ParameterSelection(p) => {
            assert_eq!(p.range_input, "14");
            assert_eq!(p.focused_widget, ParameterFocus::Range);
        },
        other => panic!("not the form: {other:?}"),
    }
    let (s, _) = s.on_key(Key::Tab);
    let (s, _) = s.on_key(Key::Right);
    let (s, _) = s.on_key(Key::Char('l'));
    let (s, _) = s.on_key(Key::Enter);
    let (s, a) = s.on_key(Key::Enter);
    assert_eq!(a, Action::Fetch { range: 14, unit: PrometheusTimeScale::Years });
    assert!(matches!(s.state, AppState::Loading { tick: 0 }));
    assert_eq!(s.data_fetch_count, 0);
    assert_eq!(s.current_query_range, 14);
}

#[test]
fn tui_zero_range_is_not_confirmed() {
    let s = Session::new(4);
    let (s, _) = s.on_key(Key::Down);
    let (s, _) = s.on_key(Key::Enter);
    let (s, _) = s.on_key(Key::Char('0'));
    let (s, _) = s.on_key(Key::Tab);
    let (s, _) = s.on_key(Key::Tab);
    let (s, a) = s.on_key(Key::Enter);
    assert_eq!(a, Action::Continue);
    assert!(matches!(s.state, AppState::ParameterSelection(_)));
}

fn loaded() -> Session {
    let s = all_answers(Session::new(4), None);
    s.on_key(Key::Enter).0
}

fn app(s: &Session) -> &App {
    match &s.state {
        AppState::Loaded(a) => a,
        _ => panic!("not loaded"),
    }
}

#[test]
fn tui_pages_cycle_and_scroll() {
    let s = loaded();
    let (s, _) = s.on_key(Key::Tab);
    assert_eq!(app(&s).current_view, AppView::CpuByNode);
    let (s, _) = s.on_key(Key::Left);
    let (s, _) = s.on_key(Key::Left);
    assert_eq!(app(&s).current_view, AppView::GpuByType);
    let (s, _) = s.on_key(Key::Char('1'));
    assert_eq!(app(&s).current_view, AppView::CpuByAccount);
    let (s, _) = s.on_key(Key::Up);
    assert_eq!(app(&s).scroll_offset, 0);
    let (s, _) = s.on_key(Key::Char('j'));
    assert_eq!(app(&s).scroll_offset, 1);
}

#[test]
fn tui_charts_scroll_within_their_points() {
    let s = loaded();
    let (s, _) = s.on_key(Key::Enter);
    assert_eq!(app(&s).scroll_mode, ScrollMode::Chart);
    assert_eq!(app(&s).cpu_by_account.horizontal_scroll_offset, 1);
    let (s, _) = s.on_key(Key::Right);
    assert_eq!(app(&s).cpu_by_account.horizontal_scroll_offset, 1);
    let (s, _) = s.on_key(Key::Char('h'));
    let (s, _) = s.on_key(Key::Left);
    assert_eq!(app(&s).cpu_by_account.horizontal_scroll_offset, 0);
    let (s, _) = s.on_key(Key::Esc);
    assert_eq!(app(&s).scroll_mode, ScrollMode::Page);
}

#[test]
fn tui_q_on_the_dashboard_quits_after_the_tick() {
    let s = loaded();
    let (s, a) = s.on_key(Key::Char('q'));
    assert_eq!(a, Action::Continue);
    assert!(app(&s).should_quit);
    let (_, a) = s.tick();
    assert_eq!(a, Action::Quit);
}

#[test]
fn tui_views_and_focus_cycle() {
    assert_eq!(ParameterFocus::Range.next().next().next(), ParameterFocus::Range);
    assert_eq!(ParameterFocus::Unit.next(), ParameterFocus::Confirm);
}

#[test]
fn charts_page_lays_out_charts_by_name() {
    let data = ChartData {
        source_data: series_map(&[("b", vec![1, 2, 3]), ("a", vec![4, 5]), ("c", vec![7])]),
        capacity_data: series_map(&[("Total", vec![10, 10, 10]), ("a", vec![6, 6])]),
        horizontal_scroll_offset: 0,
    };
    let page = chart_page(&data, AppView::CpuByNode, DisplayMode::Availability, 40, 20, 20, 10, 0, 2);
    assert_eq!(page.names, vec!["a", "b", "c"]);
    assert_eq!(page.num_cols, 2);
    assert_eq!((page.current_page, page.total_pages), (1, 1));
    assert!(!page.more_above && !page.more_below);
    assert_eq!(page.charts.len(), 3);
    let a = &page.charts[0];
    assert_eq!(a.name, "a");
    assert_eq!(a.bars, vec![(2, "-1".to_string()), (1, "Now".to_string())]);
    assert_eq!(a.max, 6);
    let b = &page.charts[1];
    assert_eq!(b.bars, vec![(0, "-2".to_string()), (0, "-1".to_string())]);
    assert!(b.more_right && !b.more_left);
    assert_eq!(b.color, 1);
    let usage = chart_page(&data, AppView::CpuByAccount, DisplayMode::Usage, 40, 10, 20, 10, 5, 2);
    assert_eq!((usage.current_page, usage.total_pages), (2, 2));
    assert_eq!(usage.first, 2);
    assert!(usage.more_above && !usage.more_below);
    assert_eq!(usage.charts.len(), 1);
    assert_eq!(usage.charts[0].name, "c");
    assert_eq!(usage.charts[0].max, 10);
    assert_eq!(usage.charts[0].bars, vec![(7, "Now".to_string())]);
}

#[test]
fn charts_empty_page() {
    let data = ChartData { source_data: NameMap::new(), capacity_data: NameMap::new(), horizontal_scroll_offset: 3 };
    let page = chart_page(&data, AppView::GpuByType, DisplayMode::Usage, 80, 40, 20, 10, 0, 10);
    assert_eq!((page.current_page, page.total_pages), (1, 1));
    assert!(page.charts.is_empty());
}

#[test]
fn screens_tab_titles_show_the_page_on_the_selected_tab() {
    let t = tab_titles(AppView::CpuByNode, 2, 5, PrometheusTimeScale::Weeks);
    assert_eq!(t, vec!["(1) Cores by Account", "(2) Cores by Node (2/5)", "(3) GPU by Type", "Time Scale: 1w"]);
    let single = tab_titles(AppView::CpuByAccount, 1, 1, PrometheusTimeScale::Years);
    assert_eq!(single, vec!["(1) Cores by Account", "(2) Cores by Node", "(3) GPU by Type", "Time Scale: 1y"]);
    assert_eq!(tab_position(AppView::GpuByType), 2);
}

#[test]
fn screens_footer_follows_the_screen() {
    assert_eq!(footer(None, None, None), "Use (q) to quit, (↑/↓ to select), (Enter) to confirm");
    assert_eq!(
        footer(None, Some(ParameterFocus::Unit), None),
        "Use (q) to quit, (Tab to switch focus), (←/→ to change)"
    );
    assert_eq!(
        footer(Some(1), None, Some(ScrollMode::Page)),
        "Use (q) to quit, (h/l, ←/→, Tab, or numbers) to switch views, (Enter to scroll charts)"
    );
    assert_eq!(
        footer(Some(3), None, Some(ScrollMode::Page)),
        "Use (q) to quit, (h/l, ←/→, Tab, or numbers) to switch views, (k/j, ↑/↓ to scroll pages), (Enter to scroll charts)"
    );
    assert_eq!(
        footer(Some(1), None, Some(ScrollMode::Chart)),
        "Use (q) to quit, (h/l, ←/→ to scroll charts), (k/j, ↑/↓ to scroll pages), (Esc to scroll pages)"
    );
}

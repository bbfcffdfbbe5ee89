use stagehand::command::Command;
use stagehand::controller::set_address;
use stagehand::data_structures::index::Index;
use stagehand::data_structures::level::Level;
use stagehand::data_structures::show::Show;
use stagehand::data_structures::universe::Universe;
use stagehand::tui::command_buffer_widget::CommandBufferWidget;
use stagehand::tui::tombstones_widget::{stone_color, Filter, Mode, StoneColor, TombstonesWidget};
use stagehand::tui::{header_text, Event, KeyCode, KeyEvent, Tab, Tui};

fn key(code: KeyCode) -> Event {
    Event::Key(KeyEvent { code, modifiers_none: true, press: true })
}

fn typed(w: &CommandBufferWidget) -> String {
    match w {
        CommandBufferWidget::Idle { buf } => buf.clone(),
        _ => String::new(),
    }
}

#[test]
fn typing_and_backspace() {
    let mut w = CommandBufferWidget::default();
    for c in "clear".chars() {
        assert!(w.handle_event(&key(KeyCode::Char(c))).is_none());
    }
    assert_eq!(typed(&w), "clear");
    w.handle_event(&key(KeyCode::Backspace));
    assert_eq!(typed(&w), "clea");
    w.handle_event(&key(KeyCode::Char('r')));
    assert_eq!(w.shown(), "$ clear");
}

#[test]
fn enter_reads_the_command() {
    let mut w = CommandBufferWidget::default();
    for c in "clear".chars() {
        w.handle_event(&key(KeyCode::Char(c)));
    }
    match w.handle_event(&key(KeyCode::Enter)) {
        Some(Command::ClearAddress { .. }) => {}
        other => panic!("{other:?}"),
    }
    assert_eq!(typed(&w), "clear");
}

#[test]
fn enter_on_empty_line_gives_nothing() {
    let mut w = CommandBufferWidget::default();
    assert!(w.handle_event(&key(KeyCode::Enter)).is_none());
    assert_eq!(typed(&w), "");
}

#[test]
fn enter_shows_parse_error() {
    let mut w = CommandBufferWidget::default();
    for c in "set 0 5".chars() {
        w.handle_event(&key(KeyCode::Char(c)));
    }
    assert!(w.handle_event(&key(KeyCode::Enter)).is_none());
    match &w {
        CommandBufferWidget::Error { message } => assert_eq!(message, "invalid index: 0"),
        other => panic!("{other:?}"),
    }
    assert_eq!(w.shown(), "$ invalid index: 0");
    // Typing after an answer starts a new line.
    w.handle_event(&key(KeyCode::Char('s')));
    assert_eq!(typed(&w), "s");
}

#[test]
fn keys_with_modifiers_are_ignored() {
    let mut w = CommandBufferWidget::default();
    let ev = Event::Key(KeyEvent { code: KeyCode::Char('x'), modifiers_none: false, press: true });
    w.handle_event(&ev);
    let ev = Event::Key(KeyEvent { code: KeyCode::Char('y'), modifiers_none: true, press: false });
    w.handle_event(&ev);
    w.handle_event(&Event::Other);
    w.handle_event(&key(KeyCode::PageUp));
    assert_eq!(typed(&w), "");
}

#[test]
fn answers_show_on_the_line() {
    let mut w = CommandBufferWidget::default();
    w.success(String::new());
    assert_eq!(w.shown(), "$ ");
    w.error("no path set".to_string());
    assert_eq!(w.shown(), "$ no path set");
    w.handle_event(&key(KeyCode::Backspace));
    assert_eq!(typed(&w), "");
}

#[test]
fn tombstones_keys() {
    let show = Show::default();
    let mut t = TombstonesWidget::new();
    assert_eq!(t.filter, Filter::Active);
    t.handle_event(&key(KeyCode::F(1)), &show);
    assert_eq!(t.universe_index, 2);
    t.handle_event(&key(KeyCode::F(2)), &show);
    assert_eq!(t.universe_index, 0);
    t.handle_event(&key(KeyCode::F(2)), &show);
    assert_eq!(t.universe_index, 1);
    t.handle_event(&key(KeyCode::F(3)), &show);
    assert_eq!(t.filter, Filter::All);
    t.handle_event(&key(KeyCode::F(3)), &show);
    assert_eq!(t.filter, Filter::Active);
    t.handle_event(&key(KeyCode::F(4)), &show);
    assert_eq!(t.mode, Mode::Percentage);
    t.handle_event(&key(KeyCode::PageUp), &show);
    assert_eq!(t.scroll, 0);
    t.handle_event(&key(KeyCode::PageDown), &show);
    t.handle_event(&key(KeyCode::PageDown), &show);
    assert_eq!(t.scroll, 2);
    t.handle_event(&key(KeyCode::PageUp), &show);
    assert_eq!(t.scroll, 1);
    t.scroll = usize::MAX;
    t.handle_event(&key(KeyCode::PageDown), &show);
    assert_eq!(t.scroll, usize::MAX);
}

#[test]
fn tombstones_levels_by_filter() {
    let mut show = Show::default();
    let u = Universe::new(2).unwrap();
    set_address(
        &mut show,
        u,
        vec![(Index::new(9).unwrap(), Level::new(5)), (Index::new(3).unwrap(), Level::full())],
    )
    .unwrap();
    let mut t = TombstonesWidget::new();
    t.universe_index = 1;
    let active = t.levels(&show);
    let got: Vec<(u16, Option<u8>)> =
        active.iter().map(|(i, l)| (u16::from(*i), l.map(u8::from))).collect();
    assert_eq!(got, vec![(3, Some(255)), (9, Some(5))]);
    t.filter = Filter::All;
    let all = t.levels(&show);
    assert_eq!(all.len(), 512);
    assert_eq!(u16::from(all[0].0), 1);
    assert_eq!(all[2].1.map(u8::from), Some(255));
    assert!(all[3].1.is_none());
    t.universe_index = 0;
    assert!(t.levels(&show).iter().all(|(_, l)| l.is_none()));
}

#[test]
fn tombstones_scroll_is_clamped() {
    let mut t = TombstonesWidget::new();
    t.scroll = 50;
    // 512 stones, 10 to a row: 52 rows; 5 rows to a page: at most 47.
    assert_eq!(t.clamp_scroll(512, 10, 5), 47);
    assert_eq!(t.scroll, 47);
    t.scroll = 3;
    assert_eq!(t.clamp_scroll(512, 10, 5), 47);
    assert_eq!(t.scroll, 3);
    assert_eq!(t.clamp_scroll(0, 10, 5), 0);
    assert_eq!(t.scroll, 0);
    assert_eq!(t.clamp_scroll(11, 10, 1), 1);
}

#[test]
fn tombstone_texts() {
    let show = Show::default();
    let mut t = TombstonesWidget::new();
    assert_eq!(t.universe_label(&show), "1");
    t.universe_index = 5;
    assert_eq!(t.universe_label(&show), "-");
    assert_eq!(t.stone_text(None), "-");
    assert_eq!(t.stone_text(Some(Level::new(0))), "O");
    assert_eq!(t.stone_text(Some(Level::new(99))), "99");
    t.mode = Mode::Percentage;
    assert_eq!(t.stone_text(Some(Level::new(255))), "100%");
    assert_eq!(t.stone_text(Some(Level::new(128))), "50%");
    assert_eq!(Filter::All.to_string(), "All");
    assert_eq!(Mode::Percentage.to_string(), "Percentage");
}

#[test]
fn percent_text_matches_floating_point_formatting() {
    let mut t = TombstonesWidget::new();
    t.mode = Mode::Percentage;
    for l in 0u8..=255 {
        let p = l as f64 * 100_f64 / 255_f64;
        assert_eq!(t.stone_text(Some(Level::new(l))), format!("{p:.0}%"), "{l}");
    }
}

#[test]
fn tui_quit_and_tabs() {
    let show = Show::default();
    let mut tui = Tui::new();
    assert!(matches!(tui.handle_event(key(KeyCode::Char('q')), &show), Some(Command::Quit)));
    assert_eq!(tui.selected_tab, Tab::Tombstones);
    assert!(tui.handle_event(key(KeyCode::Tab), &show).is_none());
    assert_eq!(tui.selected_tab, Tab::Setup);
    tui.handle_event(key(KeyCode::Tab), &show);
    assert_eq!(tui.selected_tab, Tab::Logs);
    tui.handle_event(key(KeyCode::Tab), &show);
    assert_eq!(tui.selected_tab, Tab::Tombstones);
    let names: Vec<String> = Tab::all().iter().map(|t| t.to_string()).collect();
    assert_eq!(names, vec!["Tombstones", "Setup", "Logs"]);
}

#[test]
fn tui_passes_keys_on() {
    let show = Show::default();
    let mut tui = Tui::new();
    tui.handle_event(key(KeyCode::F(2)), &show);
    assert_eq!(tui.tombstones.universe_index, 1);
    for c in "save".chars() {
        tui.handle_event(key(KeyCode::Char(c)), &show);
    }
    assert!(matches!(
        tui.handle_event(key(KeyCode::Enter), &show),
        Some(Command::Save { path: None })
    ));
    tui.command_result(Err("no path set".to_string()));
    assert_eq!(tui.command_buffer.shown(), "$ no path set");
    tui.command_result(Ok(String::new()));
    assert!(matches!(tui.command_buffer, CommandBufferWidget::Success { .. }));
}

#[test]
fn header_shows_file_or_unsaved() {
    let mut show = Show::default();
    assert_eq!(header_text(&show), "<unsaved>");
    show.runtime.showfile = Some("show.toml".to_string());
    assert_eq!(header_text(&show), "show.toml");
}

fn numbered_stones(n: u16) -> Vec<(Index, Option<Level>)> {
    (1..=n).map(|i| (Index::new(i).unwrap(), None)).collect()
}

fn page_numbers(w: &TombstonesWidget, stones: &Vec<(Index, Option<Level>)>, rows: usize, columns: usize) -> Vec<u16> {
    w.page(stones, rows, columns).iter().map(|(i, _)| u16::from(*i)).collect()
}

#[test]
fn page_of_tombstones() {
    let stones = numbered_stones(10);
    let mut w = TombstonesWidget::new();
    assert_eq!(page_numbers(&w, &stones, 2, 3), vec![1, 2, 3, 4, 5, 6]);
    w.scroll = 2;
    assert_eq!(page_numbers(&w, &stones, 2, 3), vec![7, 8, 9, 10]);
    w.scroll = 4;
    assert_eq!(page_numbers(&w, &stones, 2, 3), Vec::<u16>::new());
    w.scroll = 1;
    assert_eq!(page_numbers(&w, &stones, 0, 3), Vec::<u16>::new());
    assert_eq!(page_numbers(&w, &stones, 2, 0), Vec::<u16>::new());
    assert_eq!(page_numbers(&w, &stones, 1, 4), vec![5, 6, 7, 8]);
}

#[test]
fn tombstone_colours() {
    assert_eq!(stone_color(Some(Level::out())), StoneColor::Red);
    assert_eq!(stone_color(Some(Level::full())), StoneColor::Green);
    assert_eq!(stone_color(Some(Level::new(1))), StoneColor::Blue);
    assert_eq!(stone_color(Some(Level::new(254))), StoneColor::Blue);
    assert_eq!(stone_color(None), StoneColor::Gray);
}

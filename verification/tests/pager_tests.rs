use minigrep::page_height_for;
use minigrep::render_page;
use minigrep::Config;
use minigrep::PagerCommand;
use minigrep::PagerState;

fn sample_config(line_number: bool) -> Config {
    Config {
        query: "x".to_string(),
        file_path: "fake_path.txt".to_string(),
        ignore_case: false,
        no_color: true,
        line_number,
        stats: false,
    }
}

fn ten_results() -> (Vec<String>, Vec<usize>) {
    let results: Vec<String> = (0..10).map(|i| format!("result {}", i)).collect();
    let indexes: Vec<usize> = (0..10).map(|i| i * 2).collect();
    (results, indexes)
}

#[test]
fn three_downs_move_one_row_each() {
    let mut state = PagerState::new(10, 4);
    assert_eq!(state.offset, 0);
    state.apply(PagerCommand::Down);
    state.apply(PagerCommand::Down);
    state.apply(PagerCommand::Down);
    assert_eq!(state.offset, 3);
}

#[test]
fn offset_stays_clamped_through_navigation() {
    let total = 10;
    let page_height = 4;
    let max = total - page_height;
    let mut state = PagerState::new(total, page_height);
    let commands = [
        PagerCommand::Up,
        PagerCommand::PageUp,
        PagerCommand::End,
        PagerCommand::Down,
        PagerCommand::Down,
        PagerCommand::PageDown,
        PagerCommand::Home,
        PagerCommand::PageDown,
        PagerCommand::PageDown,
        PagerCommand::PageDown,
        PagerCommand::Other,
        PagerCommand::Up,
    ];
    for cmd in commands {
        state.apply(cmd);
        assert!(state.offset <= max);
    }
}

#[test]
fn small_result_set_never_scrolls() {
    let mut state = PagerState::new(2, 5);
    state.apply(PagerCommand::Down);
    state.apply(PagerCommand::PageDown);
    state.apply(PagerCommand::End);
    assert_eq!(state.offset, 0);
}

#[test]
fn quit_is_the_only_exit_command() {
    assert!(PagerState::is_exit(PagerCommand::Quit));
    assert!(!PagerState::is_exit(PagerCommand::Down));
    assert!(!PagerState::is_exit(PagerCommand::Other));
}

#[test]
fn page_height_leaves_room_for_chrome() {
    assert_eq!(page_height_for(24), 21);
    assert_eq!(page_height_for(3), 0);
    assert_eq!(page_height_for(2), 0);
}

#[test]
fn frame_layout_without_line_numbers() {
    let (results, indexes) = ten_results();
    let config = sample_config(false);
    let frame = render_page(&results, &indexes, &config, 0, 4, 5, 10);
    assert_eq!(
        frame.header,
        "↑/↓: Scroll | Space: Page Down | Home/End: Jump | ESC/Ctrl+C: Exit"
    );
    assert_eq!(frame.separator, "-----");
    assert_eq!(frame.body, vec!["result 0", "result 1", "result 2", "result 3"]);
    assert_eq!(frame.footer, "Page: 1/3 | Showing lines 1-4 of 10");
}

#[test]
fn frame_shows_partial_last_page() {
    let (results, indexes) = ten_results();
    let config = sample_config(false);
    let frame = render_page(&results, &indexes, &config, 8, 4, 3, 10);
    assert_eq!(frame.body, vec!["result 8", "result 9"]);
    assert_eq!(frame.footer, "Page: 3/3 | Showing lines 9-10 of 10");
}

#[test]
fn frame_guards_zero_page_height() {
    let (results, indexes) = ten_results();
    let config = sample_config(false);
    let frame = render_page(&results, &indexes, &config, 0, 0, 3, 10);
    assert_eq!(frame.body.len(), 0);
    assert_eq!(frame.footer, "Page: 1/10 | Showing lines 1-0 of 10");
}

#[test]
fn frame_line_number_badges_are_one_based_and_right_aligned() {
    let (results, indexes) = ten_results();
    let config = sample_config(true);
    let frame = render_page(&results, &indexes, &config, 4, 2, 3, 10);
    // indexes[4] == 8, shown 1-based as 9, right-aligned to three columns
    assert!(frame.body[0].contains("|   9 |"));
    assert!(frame.body[0].ends_with(" result 4"));
    assert!(frame.body[1].contains("|  11 |"));
    assert!(frame.body[1].ends_with(" result 5"));
}

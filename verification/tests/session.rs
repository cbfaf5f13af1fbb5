use espresso::session::{invocation_label, is_quit_key, timer_line};
use espresso::ui::display_width;

#[test]
fn label_without_arguments_is_the_program_name() {
    assert_eq!(invocation_label(&vec![]), "espresso");
}

#[test]
fn label_joins_arguments_with_spaces() {
    let args: Vec<String> = vec!["--".into(), "sleep".into(), "100".into()];
    assert_eq!(invocation_label(&args), "espresso -- sleep 100");
    let args: Vec<String> = vec!["-t".into(), "1800".into()];
    assert_eq!(invocation_label(&args), "espresso -t 1800");
}

#[test]
fn label_has_no_line_breaks() {
    let args: Vec<String> = vec!["echo".into(), "a\nb\r".into()];
    assert_eq!(invocation_label(&args), "espresso echo a b ");
}

#[test]
fn timer_line_fills_the_terminal() {
    // Labels: "35%" and "1m 5s remaining" take 22 columns with the gaps.
    let line = timer_line(35, 100, 40);
    assert_eq!(line.chars().count(), 40);
    assert_eq!(display_width(&line), 40);
    assert!(line.ends_with("  35%  1m 5s remaining"));
    assert_eq!(line.chars().filter(|c| *c == '█').count(), 6);
}

#[test]
fn timer_line_keeps_one_cell_on_a_narrow_terminal() {
    assert_eq!(timer_line(35, 100, 10), "░  35%  1m 5s remaining");
    assert_eq!(timer_line(100, 100, 0), "█  100%  0s remaining");
}

#[test]
fn q_or_shift_q_press_quits() {
    assert!(is_quit_key(true, Some('q')));
    assert!(is_quit_key(true, Some('Q')));
    assert!(!is_quit_key(false, Some('q')));
    assert!(!is_quit_key(true, Some('x')));
    assert!(!is_quit_key(true, None));
}

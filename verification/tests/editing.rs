use replcalc::prompt::KeyEvent;
use replcalc::prompt::KeyEvent::ArrowDown as Down;
use replcalc::prompt::KeyEvent::ArrowLeft as Left;
use replcalc::prompt::KeyEvent::ArrowRight as Right;
use replcalc::prompt::KeyEvent::ArrowUp as Up;
use replcalc::prompt::KeyEvent::Backspace;
use replcalc::prompt::KeyEvent::Char;
use replcalc::prompt::KeyEvent::LineBackspace as LINE_BACKSPACE;
use replcalc::prompt::KeyEvent::LineEnd as LINE_RIGHT;
use replcalc::prompt::KeyEvent::LineStart as LINE_LEFT;
use replcalc::prompt::KeyEvent::WordBackspace as WORD_BACKSPACE;
use replcalc::prompt::KeyEvent::WordLeft as WORD_LEFT;
use replcalc::prompt::KeyEvent::WordRight as WORD_RIGHT;
use replcalc::prompt::Prompter;

fn do_test(expected_output: Vec<&str>, input: Vec<KeyEvent>) {
    let mut prompter = Prompter::new();
    let lines = prompter.run_keys(&input);
    assert_eq!(expected_output, lines);
}

#[test]
fn words() {
    do_test(vec![""], vec![Char('\n')]);
    do_test(vec!["hi"], vec![Char('h'), Char('i'), Char('\n')]);
    do_test(vec!["hi you"], vec![
        Char('h'),
        Char('i'),
        Char(' '),
        Char('y'),
        Char('o'),
        Char('u'),
        Char('\n'),
    ]);
    do_test(vec!["hi", "you"], vec![
        Char('h'),
        Char('i'),
        Char('\n'),
        Char('y'),
        Char('o'),
        Char('u'),
        Char('\n'),
    ]);
}

#[test]
fn left_right() {
    do_test(vec![""], vec![Right, Char('\n')]);
    do_test(vec![""], vec![Left, Char('\n')]);
    do_test(vec!["ih"], vec![Char('h'), Left, Char('i'), Char('\n')]);
    do_test(vec!["hi"], vec![Char('h'), Left, Right, Char('i'), Char('\n')]);
    do_test(vec!["ih"], vec![Char('h'), Right, Left, Char('i'), Char('\n')]);
}

#[test]
fn word_left_right() {
    do_test(vec![""], vec![WORD_RIGHT, Char('\n')]);
    do_test(vec![""], vec![WORD_LEFT, Char('\n')]);
    do_test(vec!["lhe"], vec![Char('h'), Char('e'), WORD_LEFT, Char('l'), Char('\n')]);
    do_test(vec!["hel"], vec![Char('h'), Char('e'), WORD_LEFT, WORD_RIGHT, Char('l'), Char('\n')]);
    do_test(vec!["ih"], vec![Char('h'), WORD_RIGHT, WORD_LEFT, Char('i'), Char('\n')]);
    do_test(vec!["hi uyo"], vec![
        Char('h'),
        Char('i'),
        Char(' '),
        Char('y'),
        Char('o'),
        WORD_LEFT,
        Char('u'),
        Char('\n'),
    ]);
    do_test(vec!["hlelo"], vec![
        Char('h'),
        Char('e'),
        Char('l'),
        Left,
        Left,
        Char('l'),
        WORD_RIGHT,
        Char('o'),
        Char('\n'),
    ]);
    do_test(vec!["a db c"], vec![
        Char('a'),
        Char(' '),
        Char('b'),
        Char(' '),
        Char('c'),
        WORD_LEFT,
        WORD_LEFT,
        Char('d'),
        Char('\n'),
    ]);
    do_test(vec!["a bd c"], vec![
        Char('a'),
        Char(' '),
        Char('b'),
        Char(' '),
        Char('c'),
        Left,
        Left,
        Left,
        Left,
        Left,
        WORD_RIGHT,
        WORD_RIGHT,
        Char('d'),
        Char('\n'),
    ]);
}

#[test]
fn line_left_right() {
    do_test(vec![""], vec![LINE_LEFT, Char('\n')]);
    do_test(vec![""], vec![LINE_RIGHT, Char('\n')]);
    do_test(vec!["ohi y"], vec![
        Char('h'),
        Char('i'),
        Char(' '),
        Char('y'),
        LINE_LEFT,
        Char('o'),
        Char('\n'),
    ]);
    do_test(vec!["hi yo"], vec![
        Char('h'),
        Char('i'),
        Char(' '),
        Char('y'),
        LINE_LEFT,
        LINE_RIGHT,
        Char('o'),
        Char('\n'),
    ]);
}

#[test]
fn backspace() {
    do_test(vec![""], vec![Backspace, Char('\n')]);
    do_test(vec!["i"], vec![Char('h'), Backspace, Char('i'), Char('\n')]);
    do_test(vec![""], vec![Char('h'), Char('i'), Backspace, Backspace, Char('\n')]);
    do_test(vec!["i"], vec![Char('h'), Char('i'), Left, Backspace, Char('\n')]);
}

#[test]
fn word_backspace() {
    do_test(vec![""], vec![WORD_BACKSPACE, Char('\n')]);
    do_test(vec![""], vec![Char('h'), Char('i'), WORD_BACKSPACE, Char('\n')]);
    do_test(vec![""], vec![Char('h'), Char('i'), Char(' '), WORD_BACKSPACE, Char('\n')]);
    do_test(vec!["hi "], vec![
        Char('h'),
        Char('i'),
        Char(' '),
        Char('y'),
        WORD_BACKSPACE,
        Char('\n'),
    ]);
    do_test(vec!["hi "], vec![
        Char('h'),
        Char('i'),
        Char(' '),
        Char('y'),
        Char('o'),
        WORD_BACKSPACE,
        Char('\n'),
    ]);
    do_test(vec!["hi o"], vec![
        Char('h'),
        Char('i'),
        Char(' '),
        Char('y'),
        Char('o'),
        Left,
        WORD_BACKSPACE,
        Char('\n'),
    ]);
}

#[test]
fn line_backspace() {
    do_test(vec![""], vec![LINE_BACKSPACE, Char('\n')]);
    do_test(vec![""], vec![Char('h'), Char('i'), LINE_BACKSPACE, Char('\n')]);
    do_test(vec![""], vec![Char('h'), Char('i'), Char(' '), LINE_BACKSPACE, Char('\n')]);
    do_test(vec![""], vec![
        Char('h'),
        Char('i'),
        Char(' '),
        Char('y'),
        LINE_BACKSPACE,
        Char('\n'),
    ]);
    do_test(vec![""], vec![
        Char('h'),
        Char('i'),
        Char(' '),
        Char('y'),
        Char('o'),
        LINE_BACKSPACE,
        Char('\n'),
    ]);
    do_test(vec!["o"], vec![
        Char('h'),
        Char('i'),
        Char(' '),
        Char('y'),
        Char('o'),
        Left,
        LINE_BACKSPACE,
        Char('\n'),
    ]);
}

#[test]
fn up_down() {
    do_test(vec![""], vec![Up, Char('\n')]);
    do_test(vec![""], vec![Down, Char('\n')]);
    do_test(vec!["a", "a"], vec![Char('a'), Char('\n'), Up, Char('\n')]);
    do_test(vec!["a", "ab"], vec![Char('a'), Char('\n'), Up, Char('b'), Char('\n')]);
    do_test(vec!["a", "a"], vec![Char('a'), Char('\n'), Char('b'), Up, Char('\n')]);
    do_test(vec!["a", "b"], vec![Char('a'), Char('\n'), Up, Down, Char('b'), Char('\n')]);
    do_test(vec!["a", "b"], vec![Char('a'), Char('\n'), Up, Left, Down, Char('b'), Char('\n')]);
    do_test(vec!["ab", "a"], vec![Char('a'), Char('b'), Char('\n'), Up, Backspace, Char('\n')]);
    do_test(vec!["ab", "a"], vec![
        Char('a'),
        Char('b'),
        Char('\n'),
        Up,
        Right,
        Backspace,
        Char('\n'),
    ]);
    do_test(vec!["ab", "b"], vec![
        Char('a'),
        Char('b'),
        Char('\n'),
        Up,
        Left,
        Backspace,
        Char('\n'),
    ]);
    do_test(vec!["a", "ac"], vec![Char('a'), Char('\n'), Char('b'), Up, Char('c'), Char('\n')]);
    do_test(vec!["a", "b", "a"], vec![
        Char('a'),
        Char('\n'),
        Char('b'),
        Char('\n'),
        Up,
        Up,
        Char('\n'),
    ]);
    do_test(vec!["a", "b", "b"], vec![
        Char('a'),
        Char('\n'),
        Char('b'),
        Char('\n'),
        Up,
        Up,
        Down,
        Char('\n'),
    ]);
    do_test(vec!["abc", "de"], vec![
        Char('a'),
        Char('b'),
        Char('c'),
        Char('\n'),
        Char('d'),
        Up,
        Left,
        Down,
        Char('e'),
        Char('\n'),
    ]);
}

#[test]
fn stream_end_discards_the_open_round() {
    let mut prompter = Prompter::new();
    let lines = prompter.run_keys(&vec![Char('h'), Char('i')]);
    assert_eq!(lines, Vec::<String>::new());
    assert_eq!(prompter.history().len(), 0);
}

#[test]
fn enter_commits_like_a_newline_character() {
    do_test(vec!["hi"], vec![Char('h'), Char('i'), KeyEvent::Enter]);
}

#[test]
fn non_ascii_characters_are_ignored() {
    do_test(vec!["ab"], vec![Char('a'), Char('\u{e9}'), Char('b'), Char('\n')]);
}

#[test]
fn recall_without_edit_adds_no_duplicate() {
    let mut prompter = Prompter::new();
    let lines = prompter.run_keys(&vec![Char('a'), Char('\n'), Up, Char('\n')]);
    assert_eq!(lines, vec!["a", "a"]);
    assert_eq!(prompter.history().len(), 1);
}

#[test]
fn recall_with_edit_forks_and_appends() {
    let mut prompter = Prompter::new();
    let lines = prompter.run_keys(&vec![Char('a'), Char('\n'), Up, Char('b'), Char('\n')]);
    assert_eq!(lines, vec!["a", "ab"]);
    assert_eq!(prompter.history(), &vec![String::from("a"), String::from("ab")]);
}

#[test]
fn displayed_line_is_stable_without_keys() {
    let history = vec![String::from("one")];
    let handler = replcalc::prompt::KeyHandler::new(&history);
    let first = handler.get_displayed_line().to_string();
    let second = handler.get_displayed_line().to_string();
    assert_eq!(first, second);
    assert_eq!(handler.cursor(), handler.cursor());
}

#[test]
fn prompt_label_is_stable() {
    let prompter = Prompter::new();
    assert_eq!(prompter.prompt(), "> ");
}

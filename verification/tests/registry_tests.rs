use buffers::command::{
    fetch_editor, first_word, is_whitespace_char, parse_command, run_command, Command, Outcome,
    NOT_RECOGNIZED,
};
use buffers::editor::{Action, KeyInput};
use buffers::naming::{anon_name_string, decimal_string};
use buffers::registry::Registry;
use buffers::search::find_lines;

fn type_text(registry: &mut Registry, name: &str, text: &str) {
    let editor = registry.fetch_or_create(Some(String::from(name)));
    for c in text.chars() {
        if c == '\n' {
            editor.on_event(KeyInput::Enter);
        } else {
            editor.on_event(KeyInput::Char(c));
        }
    }
}

fn text_of(registry: &Registry, name: &str) -> Option<String> {
    registry.get(name).map(|editor| String::from(editor.buffer().text()))
}

fn lines_by_std(text: &str, term: &str) -> Vec<String> {
    text.lines().filter(|line| line.contains(term)).map(String::from).collect()
}

#[test]
fn new_registry_is_empty() {
    let registry = Registry::new();
    assert_eq!(registry.len(), 0);
    assert!(registry.get("buffer_0").is_none());
}

#[test]
fn fetch_creates_an_empty_session() {
    let mut registry = Registry::new();
    let editor = registry.fetch_or_create(Some(String::from("notes")));
    assert_eq!(editor.buffer().text(), "");
    assert_eq!(editor.buffer().file(), &None);
    assert_eq!(editor.scroll_offset(), 0);
    assert_eq!(registry.len(), 1);
}

#[test]
fn fetch_returns_the_session_that_exists() {
    let mut registry = Registry::new();
    type_text(&mut registry, "notes", "abc");
    type_text(&mut registry, "other", "xyz");
    let editor = registry.fetch_or_create(Some(String::from("notes")));
    assert_eq!(editor.buffer().text(), "abc");
    assert_eq!(registry.len(), 2);
    assert_eq!(text_of(&registry, "other"), Some(String::from("xyz")));
}

#[test]
fn anonymous_sessions_count_up() {
    let mut registry = Registry::new();
    registry.fetch_or_create(None).on_event(KeyInput::Char('a'));
    registry.fetch_or_create(None).on_event(KeyInput::Char('b'));
    registry.fetch_or_create(None).on_event(KeyInput::Char('c'));
    assert_eq!(registry.len(), 3);
    assert_eq!(text_of(&registry, "buffer_0"), Some(String::from("a")));
    assert_eq!(text_of(&registry, "buffer_1"), Some(String::from("b")));
    assert_eq!(text_of(&registry, "buffer_2"), Some(String::from("c")));
}

#[test]
fn anonymous_names_skip_names_that_are_taken() {
    let mut registry = Registry::new();
    type_text(&mut registry, "buffer_1", "one");
    type_text(&mut registry, "buffer_0", "zero");
    let editor = registry.fetch_or_create(None);
    assert_eq!(editor.buffer().text(), "");
    editor.on_event(KeyInput::Char('n'));
    assert_eq!(registry.len(), 3);
    assert_eq!(text_of(&registry, "buffer_0"), Some(String::from("zero")));
    assert_eq!(text_of(&registry, "buffer_1"), Some(String::from("one")));
    assert_eq!(text_of(&registry, "buffer_2"), Some(String::from("n")));
}

#[test]
fn anonymous_names_never_collide_with_later_explicit_names() {
    let mut registry = Registry::new();
    registry.fetch_or_create(None);
    type_text(&mut registry, "buffer_1", "explicit");
    registry.fetch_or_create(None).on_event(KeyInput::Char('x'));
    assert_eq!(registry.len(), 3);
    assert_eq!(text_of(&registry, "buffer_0"), Some(String::new()));
    assert_eq!(text_of(&registry, "buffer_1"), Some(String::from("explicit")));
    assert_eq!(text_of(&registry, "buffer_2"), Some(String::from("x")));
}

#[test]
fn anonymous_names_are_in_decimal() {
    assert_eq!(anon_name_string(0), "buffer_0");
    assert_eq!(anon_name_string(7), "buffer_7");
    assert_eq!(anon_name_string(10), "buffer_10");
    assert_eq!(anon_name_string(1203), "buffer_1203");
    assert_eq!(anon_name_string(u64::MAX), "buffer_18446744073709551615");
    assert_eq!(decimal_string(0), "0");
    assert_eq!(decimal_string(909), "909");
    for n in 0..2000u64 {
        assert_eq!(anon_name_string(n), format!("buffer_{}", n));
    }
}

#[test]
fn search_all_finds_lines_in_every_buffer() {
    let mut registry = Registry::new();
    type_text(&mut registry, "a", "foo\nbar");
    type_text(&mut registry, "b", "barfoo\n");
    assert_eq!(registry.search_all("foo"), vec![String::from("foo"), String::from("barfoo")]);
}

#[test]
fn search_all_without_a_match_is_empty() {
    let mut registry = Registry::new();
    type_text(&mut registry, "a", "foo\nbar");
    assert_eq!(registry.search_all("baz"), Vec::<String>::new());
    assert_eq!(Registry::new().search_all("foo"), Vec::<String>::new());
}

#[test]
fn search_all_tells_upper_case_from_lower_case() {
    let mut registry = Registry::new();
    type_text(&mut registry, "a", "Foo\nfoo\nFOO");
    assert_eq!(registry.search_all("foo"), vec![String::from("foo")]);
    assert_eq!(registry.search_all("F"), vec![String::from("Foo"), String::from("FOO")]);
}

#[test]
fn search_all_takes_the_term_literally() {
    let mut registry = Registry::new();
    type_text(&mut registry, "a", "a.c\nabc\na*");
    assert_eq!(registry.search_all("a.c"), vec![String::from("a.c")]);
    assert_eq!(registry.search_all("a*"), vec![String::from("a*")]);
}

#[test]
fn search_all_with_an_empty_term_gives_every_line() {
    let mut registry = Registry::new();
    type_text(&mut registry, "a", "x\n\ny\n");
    assert_eq!(
        registry.search_all(""),
        vec![String::from("x"), String::new(), String::from("y")]
    );
}

#[test]
fn find_lines_agrees_with_the_standard_library() {
    let texts = [
        "",
        "\n",
        "\n\n",
        "foo",
        "foo\n",
        "foo\nbar",
        "foo\r\nbar\r\n",
        "foo\rbar\nbaz\r",
        "\r\n\r\nfoo\r",
        "a\r\r\nb",
        "héllo wörld\nこんにちは\nfoo",
        "aaa\naa\na\n\naaaa",
    ];
    let terms = ["", "foo", "a", "aa", "aaa", "\r", "o\r", "ö", "にち", "bar", "zzz"];
    for text in texts {
        for term in terms {
            assert_eq!(find_lines(text, term), lines_by_std(text, term), "{:?} in {:?}", term, text);
        }
    }
}

#[test]
fn whitespace_agrees_with_the_standard_library() {
    for code in 0..=0x10FFFFu32 {
        if let Some(c) = char::from_u32(code) {
            assert_eq!(is_whitespace_char(c), c.is_whitespace(), "U+{:04X}", code);
        }
    }
}

#[test]
fn first_word_stops_at_the_first_space() {
    assert_eq!(first_word("open notes"), "open");
    assert_eq!(first_word("search a b c"), "search");
    assert_eq!(first_word("zzz"), "zzz");
    assert_eq!(first_word(""), "");
    assert_eq!(first_word(" open"), "");
    assert_eq!(first_word("open\tnotes now"), "open\tnotes");
    assert_eq!(first_word("öffne datei"), "öffne");
}

#[test]
fn parse_open_with_a_name() {
    assert_eq!(parse_command("open notes"), Command::Open(Some(String::from("notes"))));
    assert_eq!(parse_command("open   notes  more"), Command::Open(Some(String::from("notes"))));
    assert_eq!(parse_command("open \t notes\n"), Command::Open(Some(String::from("notes"))));
}

#[test]
fn parse_open_without_a_name() {
    assert_eq!(parse_command("open"), Command::Open(None));
    assert_eq!(parse_command("open "), Command::Open(None));
    assert_eq!(parse_command("open  \t "), Command::Open(None));
}

#[test]
fn parse_search_takes_all_after_the_first_space() {
    assert_eq!(parse_command("search foo"), Command::Search(String::from("foo")));
    assert_eq!(parse_command("search foo bar "), Command::Search(String::from("foo bar ")));
    assert_eq!(parse_command("search  foo"), Command::Search(String::from(" foo")));
    assert_eq!(parse_command("search"), Command::Search(String::new()));
    assert_eq!(parse_command("search "), Command::Search(String::new()));
}

#[test]
fn parse_other_verbs_are_unknown() {
    assert_eq!(parse_command("zzz"), Command::Unknown);
    assert_eq!(parse_command(""), Command::Unknown);
    assert_eq!(parse_command(" open notes"), Command::Unknown);
    assert_eq!(parse_command("Open notes"), Command::Unknown);
    assert_eq!(parse_command("opened notes"), Command::Unknown);
    assert_eq!(parse_command("open\tnotes"), Command::Unknown);
    assert_eq!(parse_command("searching foo"), Command::Unknown);
}

#[test]
fn unknown_command_is_reported_and_changes_nothing() {
    let mut registry = Registry::new();
    type_text(&mut registry, "notes", "hi");
    registry.fetch_or_create(None);
    let outcome = run_command("zzz", &mut registry);
    assert_eq!(outcome, Outcome::NotRecognized);
    assert_eq!(NOT_RECOGNIZED, "command not recognized");
    assert_eq!(registry.len(), 2);
    assert_eq!(text_of(&registry, "notes"), Some(String::from("hi")));
    assert_eq!(text_of(&registry, "buffer_0"), Some(String::new()));
    assert!(registry.get("zzz").is_none());
    let next = run_command("open", &mut registry);
    assert_eq!(next, Outcome::Entered(String::from("buffer_1")));
}

#[test]
fn open_command_enters_the_named_session() {
    let mut registry = Registry::new();
    assert_eq!(run_command("open notes", &mut registry), Outcome::Entered(String::from("notes")));
    assert_eq!(registry.len(), 1);
    assert_eq!(text_of(&registry, "notes"), Some(String::new()));
    assert_eq!(run_command("open notes", &mut registry), Outcome::Entered(String::from("notes")));
    assert_eq!(registry.len(), 1);
}

#[test]
fn open_command_without_a_name_makes_an_anonymous_session() {
    let mut registry = Registry::new();
    assert_eq!(run_command("open buffer_1", &mut registry), Outcome::Entered(String::from("buffer_1")));
    assert_eq!(run_command("open buffer_0", &mut registry), Outcome::Entered(String::from("buffer_0")));
    assert_eq!(run_command("open", &mut registry), Outcome::Entered(String::from("buffer_2")));
    assert_eq!(run_command("open ", &mut registry), Outcome::Entered(String::from("buffer_3")));
    assert_eq!(registry.len(), 4);
}

#[test]
fn search_command_collects_the_matching_lines() {
    let mut registry = Registry::new();
    type_text(&mut registry, "a", "foo\nbar");
    type_text(&mut registry, "b", "barfoo\n");
    assert_eq!(
        run_command("search foo", &mut registry),
        Outcome::Matches(vec![String::from("foo"), String::from("barfoo")])
    );
    assert_eq!(run_command("search o b", &mut registry), Outcome::Matches(Vec::new()));
    assert_eq!(registry.len(), 2);
    assert_eq!(text_of(&registry, "a"), Some(String::from("foo\nbar")));
}

#[test]
fn session_state_persists_across_opens() {
    let mut registry = Registry::new();
    let outcome = run_command("open notes", &mut registry);
    let Outcome::Entered(key) = outcome else { panic!("open must enter a session") };
    {
        let editor = registry.fetch_or_create(Some(key));
        editor.on_start();
        let mut last = Action::Continue;
        for event in [
            KeyInput::Char('h'),
            KeyInput::Char('i'),
            KeyInput::Enter,
            KeyInput::Char('t'),
            KeyInput::Char('h'),
            KeyInput::Char('e'),
            KeyInput::Char('r'),
            KeyInput::Char('e'),
            KeyInput::Esc,
        ] {
            assert_eq!(last, Action::Continue);
            last = editor.on_event(event).action;
        }
        assert_eq!(last, Action::Exit);
    }
    let editor = fetch_editor(&mut registry, "open notes");
    assert_eq!(editor.buffer().text(), "hi\nthere");
    assert_eq!(registry.len(), 1);
}

#[test]
fn scroll_offset_persists_across_opens() {
    let mut registry = Registry::new();
    let editor = fetch_editor(&mut registry, "open notes");
    editor.on_event(KeyInput::Down);
    editor.on_event(KeyInput::Down);
    editor.on_event(KeyInput::Esc);
    assert_eq!(fetch_editor(&mut registry, "open notes").scroll_offset(), 2);
}

#[test]
fn fetch_editor_takes_the_second_token_as_the_name() {
    let mut registry = Registry::new();
    fetch_editor(&mut registry, "open notes").on_event(KeyInput::Char('n'));
    fetch_editor(&mut registry, "  open \t todo  list").on_event(KeyInput::Char('t'));
    fetch_editor(&mut registry, "open").on_event(KeyInput::Char('a'));
    fetch_editor(&mut registry, "").on_event(KeyInput::Char('b'));
    assert_eq!(registry.len(), 4);
    assert_eq!(text_of(&registry, "notes"), Some(String::from("n")));
    assert_eq!(text_of(&registry, "todo"), Some(String::from("t")));
    assert_eq!(text_of(&registry, "buffer_0"), Some(String::from("a")));
    assert_eq!(text_of(&registry, "buffer_1"), Some(String::from("b")));
}

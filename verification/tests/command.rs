use stagehand::command::{
    is_handled_command, parse_args, parse_command, Command, ErrorKind, ParseCommandError,
};
use stagehand::data_structures::address::{Address, AddressRange, AddressSet};
use stagehand::data_structures::index::Index;
use stagehand::data_structures::level::{Level, LevelRange, LevelSet};
use stagehand::data_structures::universe::Universe;

fn idx(i: u16) -> Index {
    Index::new(i).unwrap()
}

fn uni(u: u16) -> Universe {
    Universe::new(u).unwrap()
}

fn single(u: u16, i: u16) -> AddressSet {
    AddressSet::Single(Address { universe: uni(u), index: idx(i) })
}

fn set_of(line: &str) -> (AddressSet, LevelSet) {
    match parse_command(line) {
        Ok(Command::SetAddress { address_set, level_set }) => (address_set, level_set),
        other => panic!("{line}: {other:?}"),
    }
}

fn message(line: &str) -> String {
    match parse_command(line) {
        Err(e) => e.to_string(),
        Ok(c) => panic!("{line}: parsed as {c:?}"),
    }
}

#[test]
fn args_split_on_blanks() {
    let (name, args) = parse_args("set 1 50").unwrap();
    assert_eq!(name, "set");
    assert_eq!(args, vec!["1", "50"]);
    let (name, args) = parse_args("save\t\"my show.toml\"").unwrap();
    assert_eq!(name, "save");
    assert_eq!(args, vec!["my show.toml"]);
    let (name, args) = parse_args("clear").unwrap();
    assert_eq!(name, "clear");
    assert!(args.is_empty());
}

#[test]
fn args_trailing_blank_gives_empty_argument() {
    let (_, args) = parse_args("set 1 ").unwrap();
    assert_eq!(args, vec!["1", ""]);
}

#[test]
fn args_unclosed_quote_is_plain_text() {
    let (_, args) = parse_args("save \"a b").unwrap();
    assert_eq!(args, vec!["\"a", "b"]);
}

#[test]
fn args_errors() {
    match parse_args("") {
        Err(ParseCommandError::Nom(e)) => {
            assert_eq!(e.code, ErrorKind::Alpha);
            assert_eq!(e.input, "");
        }
        other => panic!("{other:?}"),
    }
    match parse_args("1set") {
        Err(ParseCommandError::Nom(e)) => {
            assert_eq!(e.code, ErrorKind::Alpha);
            assert_eq!(e.input, "1set");
        }
        other => panic!("{other:?}"),
    }
    match parse_args("set\t1 2\n") {
        Err(ParseCommandError::Nom(e)) => {
            assert_eq!(e.code, ErrorKind::Eof);
            assert_eq!(e.input, "\n");
        }
        other => panic!("{other:?}"),
    }
    match parse_args("set \"1\"x") {
        Err(ParseCommandError::Nom(e)) => {
            assert_eq!(e.code, ErrorKind::Eof);
            assert_eq!(e.input, "x");
        }
        other => panic!("{other:?}"),
    }
}

#[test]
fn args_white_space_follows_unicode() {
    // Every character is tried between two letters of an argument: spaces and tabs separate
    // arguments, other white space ends the line early, and anything else joins the argument.
    for code in 0u32..=0x10ffff {
        let Some(c) = char::from_u32(code) else { continue };
        let line = format!("set a{c}b");
        let res = parse_args(&line);
        if c == ' ' || c == '\t' {
            assert_eq!(res.unwrap().1, vec!["a", "b"]);
        } else if c.is_whitespace() {
            match res {
                Err(ParseCommandError::Nom(e)) => assert_eq!(e.code, ErrorKind::Eof),
                other => panic!("{code:x}: {other:?}"),
            }
        } else if c == '"' {
            assert_eq!(res.unwrap().1, vec!["a\"b"]);
        } else {
            assert_eq!(res.unwrap().1, vec![format!("a{c}b").as_str()], "{code:x}");
        }
    }
}

#[test]
fn command_names_letters_only() {
    for code in 0u32..0x80 {
        let c = char::from_u32(code).unwrap();
        let line = format!("{c}");
        let res = parse_args(&line);
        assert_eq!(res.is_ok(), c.is_ascii_alphabetic(), "{code}");
    }
}

#[test]
fn set_single_address() {
    let (a, l) = set_of("set 1 50");
    assert_eq!(a, single(1, 1));
    assert_eq!(l, LevelSet::Single(Level::new(50)));
    let (a, l) = set_of("set 2/17 f");
    assert_eq!(a, single(2, 17));
    assert_eq!(l, LevelSet::Single(Level::full()));
    let (a, l) = set_of("set 63999/512 o");
    assert_eq!(a, single(63999, 512));
    assert_eq!(l, LevelSet::Single(Level::out()));
}

#[test]
fn set_range_with_step() {
    let (a, l) = set_of("set 2/10-20|2 0-f");
    assert_eq!(a, AddressSet::Range(AddressRange::with_step(uni(2), idx(10), idx(20), 2).unwrap()));
    assert_eq!(l, LevelSet::Range(LevelRange { start: Level::new(0), end: Level::full() }));
    let (a, _) = set_of("set 1-512 5");
    assert_eq!(a, AddressSet::all(uni(1)));
}

#[test]
fn set_percentages() {
    let (_, l) = set_of("set 1 50%");
    assert_eq!(l, LevelSet::Single(Level::new(128)));
    let (_, l) = set_of("set 1 100%");
    assert_eq!(l, LevelSet::Single(Level::new(255)));
    let (_, l) = set_of("set 1 255%");
    assert_eq!(l, LevelSet::Single(Level::new(255)));
    let (_, l) = set_of("set 1 10%-90%");
    assert_eq!(
        l,
        LevelSet::Range(LevelRange { start: Level::new(26), end: Level::new(230) })
    );
}

#[test]
fn percent_matches_floating_point_rounding() {
    for p in 0u16..=255 {
        let (_, l) = set_of(&format!("set 1 {p}%"));
        let expected = (f64::from(p) * 255_f64 / 100_f64).round() as u8;
        assert_eq!(l, LevelSet::Single(Level::new(expected)), "{p}%");
    }
}

#[test]
fn set_leading_zeros_and_quotes() {
    let (a, l) = set_of("set 002/0017 007");
    assert_eq!(a, single(2, 17));
    assert_eq!(l, LevelSet::Single(Level::new(7)));
    let (a, _) = set_of("set \"1\" 5");
    assert_eq!(a, single(1, 1));
    let (a, _) = set_of("set 1 5 extra words");
    assert_eq!(a, single(1, 1));
}

#[test]
fn set_invalid_universe_falls_back_to_index() {
    // A universe out of range is not taken as a universe, so the number is read as an index.
    assert_eq!(message("set 64000/1 5"), "invalid index: 64000");
    assert_eq!(message("set 0/1 5"), "invalid index: 0");
}

#[test]
fn set_errors() {
    assert_eq!(message("set 0 5"), "invalid index: 0");
    assert_eq!(message("set 1/600 5"), "invalid index: 600");
    assert_eq!(message("set 70000 5"), "error Digit at: 70000");
    assert_eq!(message("set x 5"), "error Digit at: x");
    assert_eq!(message("set 5-1 10"), "invalid address range: 5-1 (step: None)");
    assert_eq!(message("set 1-5|0 10"), "invalid address range: 1-5 (step: Some(0))");
    assert_eq!(message("set 1-5| 10"), "error Eof at: |");
    assert_eq!(message("set 1-0 10"), "error Eof at: -0");
    assert_eq!(message("set 1 300"), "error Digit at: 300");
    assert_eq!(message("set 1 50x"), "error Eof at: x");
    assert_eq!(message("set 1 O"), "error Digit at: O");
    assert_eq!(message("set 1 5-"), "error Eof at: -");
    assert_eq!(message("set 1 1-300"), "error Eof at: -300");
    assert_eq!(message("set 1 "), "error Digit at: ");
    assert_eq!(message("set \"1 5"), "error Digit at: \"1");
    assert_eq!(message("set 1 5\n"), "error Eof at: \n");
    assert_eq!(message("1 5"), "error Alpha at: 1 5");
}

#[test]
fn invalid_range_error_value() {
    match parse_command("set 3/5-1 10") {
        Err(ParseCommandError::External(input, kind, msg)) => {
            assert_eq!(input, "3/5-1");
            assert_eq!(kind, ErrorKind::MapRes);
            assert_eq!(msg, "invalid address range: 5-1 (step: None)");
        }
        other => panic!("{other:?}"),
    }
    match parse_command("set 1/0 10") {
        Err(ParseCommandError::External(input, kind, msg)) => {
            assert_eq!(input, "0");
            assert_eq!(kind, ErrorKind::MapRes);
            assert_eq!(msg, "invalid index: 0");
        }
        other => panic!("{other:?}"),
    }
}

#[test]
fn error_messages_of_every_variant() {
    assert_eq!(ParseCommandError::InvalidUniverse(0).to_string(), "invalid universe: 0");
    assert_eq!(ParseCommandError::InvalidIndex(513).to_string(), "invalid index: 513");
    assert_eq!(
        ParseCommandError::InvalidAddressRange(idx(9), idx(3), Some(12)).to_string(),
        "invalid address range: 9-3 (step: Some(12))"
    );
    assert_eq!(
        ParseCommandError::InvalidLevelRange(Level::out(), Level::new(30)).to_string(),
        "invalid level range: O-30"
    );
    assert_eq!(
        ParseCommandError::External("x".to_string(), ErrorKind::MapRes, "why".to_string())
            .to_string(),
        "why"
    );
}

#[test]
fn clear_commands() {
    match parse_command("clear") {
        Ok(Command::ClearAddress { address_set }) => {
            assert_eq!(address_set, AddressSet::all(Universe::one()))
        }
        other => panic!("{other:?}"),
    }
    match parse_command("clear 3/5-9") {
        Ok(Command::ClearAddress { address_set }) => assert_eq!(
            address_set,
            AddressSet::Range(AddressRange::new(uni(3), idx(5), idx(9)).unwrap())
        ),
        other => panic!("{other:?}"),
    }
    assert_eq!(message("clear 0"), "invalid index: 0");
}

#[test]
fn save_commands() {
    match parse_command("save") {
        Ok(Command::Save { path }) => assert!(path.is_none()),
        other => panic!("{other:?}"),
    }
    match parse_command("save \"my show.toml\"") {
        Ok(Command::Save { path }) => assert_eq!(path.as_deref(), Some("my show.toml")),
        other => panic!("{other:?}"),
    }
    match parse_command("save show.toml") {
        Ok(Command::Save { path }) => assert_eq!(path.as_deref(), Some("show.toml")),
        other => panic!("{other:?}"),
    }
}

#[test]
fn handled_commands() {
    assert!(!is_handled_command("foo"));
    assert!(!is_handled_command("quit"));
    assert!(!is_handled_command("set"));
    assert!(!is_handled_command("set 1"));
    assert!(is_handled_command("set 0"));
    assert!(is_handled_command("set 1 5"));
    assert!(is_handled_command("clear"));
    assert!(is_handled_command("save"));
    assert!(is_handled_command(""));
    assert!(is_handled_command("1"));
    assert!(!is_handled_command("Set 1 5"));
}

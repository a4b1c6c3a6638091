use exsync::config::{parse, resolve_home, ConfigError, Mode, Verify};

const HOME: &str = "/Users/tester";

// A valid version parses.
#[test]
fn ut01_valid_version_parses() {
    let text = "version = 1\n\n[[entry]]\nname = \"a\"\nmode = \"mirror\"\ndrive = \"D\"\nsource = \"~/x\"\ndest = \"d/x\"\n";
    let entries = parse(text, HOME).expect("valid config should parse");
    assert_eq!(entries.len(), 1);
    assert_eq!(entries[0].name, "a");
}

// Version 2 fails with code 2.
#[test]
fn ut01_version_mismatch_fails_code2() {
    let text = "version = 2\n\n[[entry]]\nname = \"a\"\nmode = \"mirror\"\ndrive = \"D\"\nsource = \"~/x\"\ndest = \"d/x\"\n";
    let err = parse(text, HOME).expect_err("version 2 must fail");
    assert_eq!(err.code(), 2);
    let msg = err.to_string();
    assert!(msg.contains('2'), "message names found value: {msg}");
    assert!(msg.contains("expected version = 1"), "message: {msg}");
}

// A missing version fails with code 2.
#[test]
fn ut01_missing_version_fails() {
    let text = "[[entry]]\nname = \"a\"\nmode = \"mirror\"\ndrive = \"D\"\nsource = \"~/x\"\ndest = \"d/x\"\n";
    let err = parse(text, HOME).expect_err("missing version must fail");
    assert_eq!(err.code(), 2);
    let empty: ConfigError = parse("", HOME).expect_err("empty must fail");
    assert_eq!(empty.code(), 2);
    assert!(empty.to_string().contains("expected version = 1"));
}

// An unknown key fails and names the key.
#[test]
fn ut02_unknown_top_key_names_key() {
    let text = "version = 1\nbogus = \"x\"\n";
    let err = parse(text, HOME).expect_err("unknown top key must fail");
    assert_eq!(err.code(), 2);
    assert!(err.to_string().contains("bogus"));
}

// An unknown entry key fails and names the key.
#[test]
fn ut02_unknown_entry_key_names_key() {
    let text = "version = 1\n\n[[entry]]\nname = \"a\"\nmode = \"mirror\"\ndrive = \"D\"\nsource = \"~/x\"\ndest = \"d/x\"\nnope = 1\n";
    let err = parse(text, HOME).expect_err("unknown entry key must fail");
    assert_eq!(err.code(), 2);
    assert!(err.to_string().contains("nope"));
}

#[test]
fn malformed_bad_quote_is_error() {
    let text = "version = 1\n\n[[entry]]\nname = \"oops\nmode = \"mirror\"\ndrive = \"D\"\nsource = \"~/x\"\ndest = \"d/x\"\n";
    let err = parse(text, HOME).expect_err("bad quote must be error, not panic");
    assert_eq!(err.code(), 2);
}

#[test]
fn malformed_missing_value_is_error() {
    let text = "version = 1\n\n[[entry]]\nname =\nmode = \"mirror\"\ndrive = \"D\"\nsource = \"~/x\"\ndest = \"d/x\"\n";
    let err = parse(text, HOME).expect_err("`key =` must be error, not panic");
    assert_eq!(err.code(), 2);
}

#[test]
fn malformed_unknown_mode_is_error() {
    let text = "version = 1\n\n[[entry]]\nname = \"a\"\nmode = \"warp\"\ndrive = \"D\"\nsource = \"~/x\"\ndest = \"d/x\"\n";
    let err = parse(text, HOME).expect_err("unknown mode must be error, not panic");
    assert_eq!(err.code(), 2);
}

#[test]
fn malformed_missing_drive_is_error() {
    let text = "version = 1\n\n[[entry]]\nname = \"a\"\nmode = \"mirror\"\nsource = \"~/x\"\ndest = \"d/x\"\n";
    let err = parse(text, HOME).expect_err("missing drive must be error, not panic");
    assert_eq!(err.code(), 2);
    assert!(err.to_string().contains("drive"));
}

// Every field, with comments, arrays, escapes and tilde expansion.
#[test]
fn full_entry_parses_every_field() {
    let text = "# exsync config\nversion = 1 # trailing comment\n\n[[entry]]\nname = \"notes\"\nmode = \"mirror\"\ndrive = \"BACKUP\"\nsource = \"~/Documents/notes\"\ndest = \"backup/notes\"\nexclude = [\".DS_Store\"]\n\n[ [ entry ] ]\nname = \"audio\"\nmode = \"move\"\ndrive = \"BACKUP\"\nsource = \"~\"\ndest = \"backup/audio\"\ninclude = [\"*.wav\", \"a\\\"b#c\",]\nname_re = \"^x\\\\d\"\nmin_age_minutes = 5\nskip_open = true\nverify = \"full\"\n";
    let entries = parse(text, HOME).expect("config should parse");
    assert_eq!(entries.len(), 2);
    let notes = &entries[0];
    assert_eq!(notes.name, "notes");
    assert_eq!(notes.mode, Mode::Mirror);
    assert_eq!(notes.drive, "BACKUP");
    assert_eq!(notes.source, "/Users/tester/Documents/notes");
    assert_eq!(notes.dest, "backup/notes");
    assert_eq!(notes.exclude, vec![".DS_Store".to_string()]);
    assert!(notes.includes.is_empty());
    assert_eq!(notes.name_re, None);
    assert_eq!(notes.min_age_minutes, None);
    assert!(!notes.skip_open);
    assert_eq!(notes.verify, Verify::Readback);
    let audio = &entries[1];
    assert_eq!(audio.mode, Mode::Move);
    assert_eq!(audio.source, "/Users/tester");
    assert_eq!(audio.includes, vec!["*.wav".to_string(), "a\"b#c".to_string()]);
    assert_eq!(audio.name_re, Some("^x\\d".to_string()));
    assert_eq!(audio.min_age_minutes, Some(5));
    assert!(audio.skip_open);
    assert_eq!(audio.verify, Verify::Full);
}

#[test]
fn error_messages_are_exact() {
    let cases: Vec<(&str, &str)> = vec![
        ("version = 1\nversion = 1\n", "duplicate version at line 2: expected version = 1 once"),
        ("version = \"1\"\n", "unsupported version \"1\" at line 1: expected version = 1"),
        ("version = true\n", "unsupported version true at line 1: expected version = 1"),
        ("version = []\n", "unsupported version array at line 1: expected version = 1"),
        ("version = -3\n", "unsupported version -3 (found -3): expected version = 1"),
        ("[[entry]]\n", "entry table [[entry]] before version at line 1: expected version = 1 first"),
        ("version = 1\n[table]\n", "malformed line 2: expected [[entry]]"),
        ("version = 1\njust words\n", "malformed line 2: expected `key = value`"),
        ("version = 1\nb@d = 1\n", "malformed line 2: bad key"),
        ("version = 1\nx = 99999999999999999999\n", "malformed line 2: bad integer"),
        ("version = 1\nx = 1-2\n", "malformed line 2: bad integer"),
        ("version = 1\nx = yes\n", "malformed line 2: unsupported value"),
        ("version = 1\nx = [\"a\", ,\"b\"]\n", "malformed line 2: empty array element"),
        ("version = 1\nx = [a]\n", "malformed line 2: array elements must be quoted strings"),
        ("version = 1\nx = [\"a\"\n", "malformed line 2: expected string array"),
        ("version = 1\nx = \"a\" b\n", "malformed line 2: bad quoted string"),
        ("version = 1\n[[entry]]\nname = \"a\"\nname = \"b\"\n", "duplicate key 'name' at line 4"),
        ("version = 1\n[[entry]]\nversion = 1\n", "duplicate version at line 3: expected version = 1 once"),
        ("version = 1\n[[entry]]\nname = 1\n", "field 'name' in entry 1 expects a string at line 3"),
        ("version = 1\n[[entry]]\nname = \"a\"\nmode = \"mirror\"\ndrive = \"D\"\nsource = \"s\"\ndest = \"d\"\nmin_age_minutes = -1\n", "field 'min_age_minutes' in entry 1 must be >= 0 at line 8"),
        ("version = 1\n[[entry]]\nname = \"a\"\nmode = \"mirror\"\ndrive = \"D\"\nsource = \"s\"\ndest = \"d\"\nskip_open = 1\n", "field 'skip_open' in entry 1 expects true or false at line 8"),
        ("version = 1\n[[entry]]\nname = \"a\"\nmode = \"mirror\"\ndrive = \"D\"\nsource = \"s\"\ndest = \"d\"\nverify = \"never\"\n", "invalid verify 'never' in entry 1 at line 8: expected \"readback\" or \"full\""),
        ("version = 1\n[[entry]]\nname = \"a\"\nmode = \"warp\"\n", "invalid mode 'warp' in entry 1 at line 4: expected \"mirror\" or \"move\""),
        ("version = 1\n[[entry]]\nname = \"a\"\n", "missing required field 'mode' in entry 1"),
    ];
    for (text, want) in cases {
        let err = parse(text, HOME).expect_err(text);
        assert_eq!(err.to_string(), want, "for {text:?}");
    }
}

#[test]
fn crlf_lines_and_empty_arrays() {
    let text = "version = 1\r\n[[entry]]\r\nname = \"a\"\r\nmode = \"move\"\r\ndrive = \"D\"\r\nsource = \"/abs\"\r\ndest = \"d\"\r\nexclude = [ ]\r\n";
    let entries = parse(text, HOME).expect("crlf config should parse");
    assert_eq!(entries[0].source, "/abs");
    assert!(entries[0].exclude.is_empty());
}

#[test]
fn backslash_before_non_ascii_is_a_malformed_value() {
    let head = "version = 1\n\n[[entry]]\nmode = \"mirror\"\ndrive = \"D\"\nsource = \"~/x\"\ndest = \"d/x\"\n";
    let text = format!("{head}name = \"\\é\"\n");
    let err = parse(&text, HOME).expect_err("must be error, not panic");
    assert_eq!(err.code(), 2);
    assert_eq!(err.to_string(), "malformed line 8: bad quoted string");
    let text = format!("{head}name = \"a\"\nexclude = [\"\\é\"]\n");
    let err = parse(&text, HOME).expect_err("must be error, not panic");
    assert_eq!(err.code(), 2);
    assert_eq!(err.to_string(), "malformed line 9: array elements must be quoted strings");
    let ok = format!("{head}name = \"\\q\" # \\é\n");
    assert_eq!(parse(&ok, HOME).expect("ascii escape is kept")[0].name, "\\q");
}

#[test]
fn home_defaults_to_users() {
    assert_eq!(resolve_home(None), "/Users");
    assert_eq!(resolve_home(Some("")), "/Users");
    assert_eq!(resolve_home(Some("/h")), "/h");
}

// The fixture file itself is not at hand; this text holds what the
// fixture's expectations describe.
#[test]
fn ut03_fixture_entries_parse() {
    let text = "version = 1\n\n[[entry]]\nname = \"notes\"\nmode = \"mirror\"\ndrive = \"BACKUP\"\nsource = \"~/Documents/notes\"\ndest = \"backup/notes\"\nexclude = [\".DS_Store\"]\n\n[[entry]]\nname = \"audio\"\nmode = \"move\"\ndrive = \"BACKUP\"\nsource = \"~/recordings\"\ndest = \"backup/audio\"\ninclude = [\"*.wav\"]\nmin_age_minutes = 5\nskip_open = true\n";
    let entries = parse(text, HOME).expect("fixture should parse");
    assert_eq!(entries.len(), 2);

    let notes = &entries[0];
    assert_eq!(notes.name, "notes");
    assert_eq!(notes.mode, Mode::Mirror);
    assert_eq!(notes.drive, "BACKUP");
    assert_eq!(notes.dest, "backup/notes");
    assert_eq!(notes.exclude, vec![".DS_Store".to_string()]);
    assert!(notes.includes.is_empty());
    assert_eq!(notes.name_re, None);
    assert_eq!(notes.min_age_minutes, None);
    assert!(!notes.skip_open);
    assert_eq!(notes.verify, Verify::Readback);
    assert!(notes.source.starts_with(HOME), "source {:?} should start with HOME {HOME}", notes.source);
    assert_eq!(notes.source, format!("{HOME}/Documents/notes"));

    let audio = &entries[1];
    assert_eq!(audio.name, "audio");
    assert_eq!(audio.mode, Mode::Move);
    assert_eq!(audio.drive, "BACKUP");
    assert_eq!(audio.dest, "backup/audio");
    assert_eq!(audio.includes, vec!["*.wav".to_string()]);
    assert!(audio.exclude.is_empty());
    assert_eq!(audio.min_age_minutes, Some(5));
    assert!(audio.skip_open);
    assert_eq!(audio.verify, Verify::Readback);
    assert_eq!(audio.source, format!("{HOME}/recordings"));
}

#[test]
fn an_escaped_value_reads_back() {
    for value in ["plain", "a\"b\\c", "é \\ \"", ""] {
        let text = format!(
            "version = 1\n\n[[entry]]\nname = \"{}\" \t\nmode = \"mirror\"\ndrive = \"D\"\nsource = \"/s\"\ndest = \"d\"\n",
            exsync::notify::escape(value)
        );
        assert_eq!(parse(&text, HOME).expect("quoted value reads back")[0].name, value);
    }
}

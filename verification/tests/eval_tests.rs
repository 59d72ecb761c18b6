//! End-to-end tests of the evaluator against an in-memory store.

use royalguard::eval::{eval, import_content, import_report, EvalError, Evaluation, ImportError};
use royalguard::store::Store;

fn run(store: &mut Store, cmd: &str) -> Evaluation {
    match eval(cmd, store) {
        Ok(ev) => ev,
        Err(e) => panic!("unable to eval {}: {:?}", cmd, e),
    }
}

fn check(store: &mut Store, cmd: &str, expected: &[&str]) {
    let lines = run(store, cmd).lines();
    let expected: Vec<String> = expected.iter().map(|s| s.to_string()).collect();
    assert_eq!(lines, expected);
}

#[test]
fn test_set() {
    let mut store = Store::new();

    run(&mut store, "set gmail");
    check(&mut store, "show all", &["'gmail'"]);

    run(&mut store, "set gmail user = zahash pass = supersecretpass");
    check(
        &mut store,
        "show all",
        &["'gmail' pass='supersecretpass' user='zahash'"],
    );

    run(&mut store, "set gmail url = mail.google.com");
    check(
        &mut store,
        "show all",
        &["'gmail' pass='supersecretpass' url='mail.google.com' user='zahash'"],
    );

    run(&mut store, "set gmail pass = updatedpass");
    check(
        &mut store,
        "show all",
        &["'gmail' pass='updatedpass' url='mail.google.com' user='zahash'"],
    );

    run(&mut store, "set discord url = discord.com tags = chat,call");
    check(
        &mut store,
        "show all",
        &[
            "'discord' tags='chat,call' url='discord.com'",
            "'gmail' pass='updatedpass' url='mail.google.com' user='zahash'",
        ],
    );
}

#[test]
fn test_del() {
    let mut store = Store::new();

    check(&mut store, "delete gmail", &[]);

    run(
        &mut store,
        "set gmail url = mail.google.com sensitive pass = gpass",
    );

    check(&mut store, "delete discord", &[]);

    run(
        &mut store,
        "set discord user = doubledragon url = discord.com",
    );

    check(
        &mut store,
        "delete gmail",
        &["'gmail' pass=***** url='mail.google.com'"],
    );

    check(
        &mut store,
        "show all",
        &["'discord' url='discord.com' user='doubledragon'"],
    );

    check(&mut store, "delete gmail user pass", &[]);
    check(
        &mut store,
        "delete discord user pass",
        &["'discord' url='discord.com'"],
    );
}

#[test]
fn test_show_reveal() {
    let mut store = Store::new();

    run(
        &mut store,
        "set gmail user = zahash pass = pass123 url = mail.google.com",
    );
    run(
        &mut store,
        "set discord user = hazash pass = dpass123 url = discord.com",
    );
    run(&mut store, "set twitch user = amogus pass = tpass123");

    check(
        &mut store,
        "show discord",
        &["'discord' pass='dpass123' url='discord.com' user='hazash'"],
    );
    check(
        &mut store,
        "show all",
        &[
            "'discord' pass='dpass123' url='discord.com' user='hazash'",
            "'gmail' pass='pass123' url='mail.google.com' user='zahash'",
            "'twitch' pass='tpass123' user='amogus'",
        ],
    );
    check(
        &mut store,
        r#"show user contains AsH and url matches '\.com'"#,
        &[
            "'discord' pass='dpass123' url='discord.com' user='hazash'",
            "'gmail' pass='pass123' url='mail.google.com' user='zahash'",
        ],
    );
    check(
        &mut store,
        "show url contains google or user is amogus",
        &[
            "'gmail' pass='pass123' url='mail.google.com' user='zahash'",
            "'twitch' pass='tpass123' user='amogus'",
        ],
    );
    check(
        &mut store,
        "show pass matches '[a-z]+123' and ( user is amogus or user contains 'ash' )",
        &[
            "'discord' pass='dpass123' url='discord.com' user='hazash'",
            "'gmail' pass='pass123' url='mail.google.com' user='zahash'",
            "'twitch' pass='tpass123' user='amogus'",
        ],
    );

    run(&mut store, "set sus user = sussolini name = potatus");
    check(&mut store, "show name is sus", &[]);
    check(
        &mut store,
        "show name is potatus",
        &["'sus' name='potatus' user='sussolini'"],
    );
    check(
        &mut store,
        "show . is sus",
        &["'sus' name='potatus' user='sussolini'"],
    );
    check(
        &mut store,
        "show . contains SUS",
        &["'sus' name='potatus' user='sussolini'"],
    );

    run(&mut store, "set sus secret pass = supahotfire");
    check(
        &mut store,
        "show sus",
        &["'sus' name='potatus' pass=***** user='sussolini'"],
    );

    run(&mut store, "set sus sensitive user = sussolini");
    check(
        &mut store,
        "show sus",
        &["'sus' name='potatus' pass=***** user=*****"],
    );
    check(
        &mut store,
        "reveal sus",
        &["'sus' name='potatus' pass='supahotfire' user='sussolini'"],
    );
}

#[test]
fn test_history() {
    let mut store = Store::new();

    run(
        &mut store,
        "set sus user = 'benito sussolini' sensitive pass = amogus",
    );
    run(&mut store, "set sus user = 'pablo susscobar'");
    run(&mut store, "set sus user = 'pablo susscobar'");
    run(&mut store, "del sus user");
    run(&mut store, "set sus pass = potatus");
    run(&mut store, "set sus note = 'this is the latest'");

    check(
        &mut store,
        "show sus",
        &["'sus' note='this is the latest' pass='potatus'"],
    );
    let lines = run(&mut store, "history sus").lines();
    match lines.as_slice() {
        [h1, h2, h3, h4, h5] => {
            assert!(h1.ends_with("note='this is the latest' pass='potatus'"));
            assert!(h2.ends_with("pass='potatus'"));
            assert!(h3.ends_with("pass=*****"));
            assert!(h4.ends_with("pass=***** user='pablo susscobar'"));
            assert!(h5.ends_with("pass=***** user='benito sussolini'"));
        }
        _ => panic!("expected five history lines, got {:?}", lines),
    }

    check(&mut store, "history blah", &[]);
}

#[test]
fn test_reveal_history() {
    let mut store = Store::new();

    run(
        &mut store,
        "set sus user = 'benito sussolini' sensitive pass = amogus",
    );
    let lines = run(&mut store, "reveal history sus").lines();
    match lines.as_slice() {
        [h1] => assert!(h1.ends_with("pass='amogus' user='benito sussolini'")),
        _ => panic!("expected one history line, got {:?}", lines),
    }
}

#[test]
fn test_rename() {
    let mut store = Store::new();

    check(&mut store, "rename gmail discord", &["'gmail' not found!"]);

    run(&mut store, "set discord");
    check(
        &mut store,
        "rename gmail discord",
        &["'discord' already exists!"],
    );

    check(&mut store, "rename discord discord2", &["Renamed!"]);
}

#[test]
fn rename_to_same_name_collides() {
    let mut store = Store::new();
    run(&mut store, "set gmail");
    check(&mut store, "rename gmail gmail", &["'gmail' already exists!"]);
}

#[test]
fn test_import() {
    let mut store = Store::new();

    assert!(import_content("", &mut store).is_ok());
    check(&mut store, "show all", &[]);

    let contents = r#"
            'gmail' user = ligma pass = balls
            'gmail' user = ligma pass = balls
            'gmail' user = ligma pass = balls
            'gmail' user = ligma pass = balls
            'gmail' user = 'benito sussolini' pass = 'joseph ballin'
            'gmail' user = 'benito sussolini' pass = 'joseph ballin'
            'gmail' user = 'benito sussolini' pass = 'joseph ballin'
            'discord' user = 'dorito breath' pass = 'kitten'
            'discord' user = 'dorito breath' pass = 'kitten'
            "#;
    import_content(contents, &mut store).expect("import failed");
    check(
        &mut store,
        "show all",
        &[
            "'discord' pass='kitten' user='dorito breath'",
            "'gmail' pass='joseph ballin' user='benito sussolini'",
        ],
    );
    let lines = run(&mut store, "history gmail").lines();
    match lines.as_slice() {
        [h1, h2] => {
            assert!(h1.ends_with("pass='joseph ballin' user='benito sussolini'"));
            assert!(h2.ends_with("pass='balls' user='ligma'"));
        }
        _ => panic!("expected two history lines, got {:?}", lines),
    }
    let lines = run(&mut store, "history discord").lines();
    match lines.as_slice() {
        [h1] => assert!(h1.ends_with("pass='kitten' user='dorito breath'")),
        _ => panic!("expected one history line, got {:?}", lines),
    }
}

#[test]
fn import_reports_the_malformed_line() {
    let mut store = Store::new();
    let contents = "'a' user = one\n'b' user = two\n'broken' user =\n'c' user = four";
    match import_content(contents, &mut store) {
        Err(EvalError::Import(ImportError::MalformedLine { line, content, cause })) => {
            assert_eq!(line, 3);
            assert_eq!(content, "'broken' user =");
            assert!(matches!(*cause, EvalError::Parse(_)));
        }
        other => panic!("expected a malformed-line error, got {:?}", other.map(|_| ())),
    }
    // the lines before the failure stay applied
    check(
        &mut store,
        "show all",
        &["'a' user='one'", "'b' user='two'"],
    );
}

#[test]
fn import_report_renders_the_count() {
    assert_eq!(import_report(0), "imported 0 records");
    assert_eq!(import_report(9), "imported 9 records");
    assert_eq!(import_report(42), "imported 42 records");
    assert_eq!(import_report(1234567), "imported 1234567 records");
}

#[test]
fn import_counts_every_line() {
    let mut store = Store::new();
    let n = import_content("'a' u = 1\n\n'b' u = 2", &mut store).expect("import failed");
    assert_eq!(n, 3);
}

#[test]
fn import_command_hands_back_the_path() {
    let mut store = Store::new();
    match run(&mut store, "import 'path/to/file.txt'") {
        Evaluation::Import(path) => assert_eq!(path, "path/to/file.txt"),
        _ => panic!("expected an import evaluation"),
    }
}

#[test]
fn copy_without_a_target_reports_failure() {
    let mut store = Store::new();

    check(&mut store, "copy gmail pass", &["Unable to Copy! Try Again!"]);

    run(&mut store, "set gmail");
    check(&mut store, "copy gmail pass", &["Unable to Copy! Try Again!"]);

    run(&mut store, "set gmail url = mail.google.com");
    check(&mut store, "copy gmail pass", &["Unable to Copy! Try Again!"]);
}

#[test]
fn masked_and_revealed_values() {
    let mut store = Store::new();
    run(&mut store, "set gmail sensitive pass = x");
    check(&mut store, "show gmail", &["'gmail' pass=*****"]);
    check(&mut store, "reveal gmail", &["'gmail' pass='x'"]);
}

#[test]
fn lex_error_reports_position() {
    let mut store = Store::new();
    match eval("set \tgmail", &mut store) {
        Err(EvalError::Lex(royalguard::lex::LexError::InvalidToken { pos })) => {
            assert_eq!(pos, 4)
        }
        _ => panic!("expected a lex error"),
    }
}

#[test]
fn parse_error_leaves_store_unchanged() {
    let mut store = Store::new();
    run(&mut store, "set gmail user = zahash");
    assert!(eval("set gmail user = a user = b", &mut store).is_err());
    check(&mut store, "show all", &["'gmail' user='zahash'"]);
}

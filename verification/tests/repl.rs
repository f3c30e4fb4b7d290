use rustql::database::Database;
use rustql::error::BackendError;
use rustql::executor::{ExecutionResult, Executor, QueryResult};
use rustql::expr::{BinaryOp, Value};
use rustql::float::{FloatReply, FloatTask};
use rustql::messages::result_lines;
use rustql::repl::{classify_line, is_seed_command, parse_usize, seed_arguments, split_words, trim_line, ReplCommand};

fn host(task: FloatTask) -> FloatReply {
    match task {
        FloatTask::Parse(text) => match text.parse::<f64>() {
            Ok(value) => FloatReply::Number(value.to_bits()),
            Err(_) => FloatReply::Invalid,
        },
        FloatTask::FromInteger(value) => FloatReply::Number((value as f64).to_bits()),
        FloatTask::Arithmetic(op, a, b) => {
            let (x, y) = (f64::from_bits(a), f64::from_bits(b));
            let value = match op {
                BinaryOp::Add => x + y,
                BinaryOp::Subtract => x - y,
                BinaryOp::Multiply => x * y,
                BinaryOp::Divide => x / y,
                BinaryOp::Modulo => x % y,
                _ => return FloatReply::Invalid,
            };
            FloatReply::Number(value.to_bits())
        }
        FloatTask::DebugText(bits) => FloatReply::Text(format!("{:?}", f64::from_bits(bits))),
        FloatTask::DisplayText(bits) => FloatReply::Text(format!("{}", f64::from_bits(bits))),
    }
}

/// What the prompt prints for one input line: result lines, or `ERROR: ...`.
fn respond(executor: &mut Executor, line: &str) -> Option<Result<Vec<String>, String>> {
    let outcome = match classify_line(line) {
        ReplCommand::Quit => return None,
        ReplCommand::Skip => return Some(Ok(Vec::new())),
        ReplCommand::Seed(text) => match seed_arguments(&text) {
            Ok((table, count)) => executor.seed(&table, count, &host),
            Err(error) => Err(error),
        },
        ReplCommand::Statement(text) => executor.execute_sql(&text, &host),
    };
    Some(match outcome {
        Ok(outcome) => {
            if let Some(snapshot) = outcome.changed {
                executor.commit(snapshot);
            }
            Ok(result_lines(&outcome.result, &host))
        }
        Err(error) => Err(format!("ERROR: {}", error.message())),
    })
}

#[test]
fn only_exact_seed_commands_use_the_meta_command() {
    let mut executor = Executor::new(Database::new(), "db.json").unwrap();
    let mut errors = String::new();
    for line in ".seedling users 1\nexit\n".split_inclusive('\n') {
        match respond(&mut executor, line) {
            None => break,
            Some(Err(error)) => errors.push_str(&format!("{error}\n")),
            Some(Ok(_)) => {}
        }
    }
    assert!(errors.contains("unexpected character '.'"));
    assert!(!errors.contains("table 'users' does not exist"));
}

#[test]
fn lines_are_trimmed_and_classified() {
    assert_eq!(classify_line("  exit \n"), ReplCommand::Quit);
    assert_eq!(classify_line("QUIT"), ReplCommand::Quit);
    assert_eq!(classify_line(" \t\n"), ReplCommand::Skip);
    assert_eq!(classify_line(" .SEED t 3\n"), ReplCommand::Seed(".SEED t 3".into()));
    assert_eq!(classify_line("SELECT 1\n"), ReplCommand::Statement("SELECT 1".into()));
    assert_eq!(classify_line("exit now"), ReplCommand::Statement("exit now".into()));
    assert_eq!(trim_line("\u{2003} a b \u{3000}"), "a b");
    assert_eq!(trim_line("   "), "");
}

#[test]
fn seed_commands_need_three_words_and_a_count() {
    assert!(is_seed_command(".seed users 10"));
    assert!(is_seed_command("  .Seed"));
    assert!(!is_seed_command(".seedling users 1"));
    assert!(!is_seed_command(""));
    assert_eq!(split_words("  a  bb\tc "), ["a", "bb", "c"]);
    assert_eq!(seed_arguments(".seed users 10").unwrap(), ("users".to_string(), 10));
    assert_eq!(seed_arguments(".seed users +7").unwrap(), ("users".to_string(), 7));
    assert!(matches!(
        seed_arguments(".seed users"),
        Err(BackendError::Execution(m)) if m == "usage: .seed <table> <count>"
    ));
    assert!(matches!(
        seed_arguments(".seed users ten"),
        Err(BackendError::Execution(m)) if m == "seed count must be an integer"
    ));
    assert!(matches!(
        seed_arguments(".seed users -1"),
        Err(BackendError::Execution(m)) if m == "seed count must be an integer"
    ));
    assert_eq!(parse_usize("0"), Some(0));
    assert_eq!(parse_usize("18446744073709551615"), Some(usize::MAX));
    assert_eq!(parse_usize("18446744073709551616"), None);
    assert_eq!(parse_usize("+"), None);
    assert_eq!(parse_usize(""), None);
}

#[test]
fn results_print_as_in_the_prompt() {
    assert_eq!(
        result_lines(&ExecutionResult::TableCreated { table: "users".into() }, &host),
        ["Created table users"]
    );
    assert_eq!(
        result_lines(&ExecutionResult::RowsInserted { count: 2 }, &host),
        ["Inserted 2 row(s)"]
    );
    let query = QueryResult {
        columns: vec!["id".into(), "score".into(), "name".into()],
        rows: vec![
            vec![Value::Integer(1), Value::Float(2.5f64.to_bits()), Value::String("Phil".into())],
            vec![Value::Integer(2), Value::Null, Value::Boolean(false)],
        ],
    };
    assert_eq!(
        result_lines(&ExecutionResult::Query(query), &host),
        ["id | score | name", "1 | 2.5 | Phil", "2 | NULL | false", "2 row(s)"]
    );
    let empty = QueryResult { columns: vec!["a".into()], rows: vec![] };
    assert_eq!(result_lines(&ExecutionResult::Query(empty), &host), ["a", "0 row(s)"]);
}

#[test]
fn prompt_session_creates_inserts_seeds_and_selects() {
    let mut executor = Executor::new(Database::new(), "db.json").unwrap();
    let lines = [
        "CREATE TABLE users (id INTEGER PRIMARY KEY, name STRING NOT NULL, active BOOLEAN);",
        "INSERT INTO users VALUES (1, 'Phil', TRUE);",
        "INSERT INTO users (name, id) VALUES ('Alice', 2);",
        "SELECT name AS user_name, active FROM users WHERE id >= 1;",
    ];
    let mut printed = Vec::new();
    for line in lines {
        printed.extend(respond(&mut executor, line).unwrap().unwrap());
    }
    assert_eq!(
        printed,
        [
            "Created table users",
            "Inserted 1 row(s)",
            "Inserted 1 row(s)",
            "user_name | active",
            "Phil | true",
            "Alice | NULL",
            "2 row(s)",
        ]
    );
    assert_eq!(
        respond(&mut executor, ".seed nowhere 1").unwrap(),
        Err("ERROR: table 'nowhere' does not exist".to_string())
    );
}

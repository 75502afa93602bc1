use vantage::parser::{parse_commands, CommandExecution};
use vantage::state::Environment;

fn no_env() -> Environment {
    Environment::new(None, vec![])
}

fn words(ws: &[&str]) -> Vec<String> {
    ws.iter().map(|w| w.to_string()).collect()
}

#[test]
fn test_parse_single_command() {
    let words = vec!["ls".to_string(), "-la".to_string()];
    let cmds = parse_commands(words, &no_env());
    assert_eq!(cmds.len(), 1);
    assert_eq!(cmds[0].args, vec!["ls", "-la"]);
    assert!(!cmds[0].bench);
}

#[test]
fn test_parse_bench() {
    let words = vec!["bench".to_string(), "ls".to_string()];
    let cmds = parse_commands(words, &no_env());
    assert_eq!(cmds.len(), 1);
    assert_eq!(cmds[0].args, vec!["ls"]);
    assert!(cmds[0].bench);
}

#[test]
fn test_parse_pipeline() {
    let words = vec!["ls".to_string(), "|".to_string(), "grep".to_string(), "rs".to_string()];
    let cmds = parse_commands(words, &no_env());
    assert_eq!(cmds.len(), 2);
    assert_eq!(cmds[0].args, vec!["ls"]);
    assert_eq!(cmds[1].args, vec!["grep", "rs"]);
}

#[test]
fn test_parse_redirection() {
    let words = vec![
        "cat".to_string(),
        "<".to_string(),
        "input.txt".to_string(),
        ">".to_string(),
        "output.txt".to_string(),
    ];
    let cmds = parse_commands(words, &no_env());
    assert_eq!(cmds.len(), 1);
    assert_eq!(cmds[0].args, vec!["cat"]);
    assert_eq!(cmds[0].input_file, Some("input.txt".to_string()));
    assert_eq!(cmds[0].output_file, Some("output.txt".to_string()));
    assert!(!cmds[0].append);
}

#[test]
fn test_parse_append_redirection() {
    let words = vec!["echo".to_string(), "hi".to_string(), ">>".to_string(), "log.txt".to_string()];
    let cmds = parse_commands(words, &no_env());
    assert_eq!(cmds.len(), 1);
    assert_eq!(cmds[0].args, vec!["echo", "hi"]);
    assert_eq!(cmds[0].output_file, Some("log.txt".to_string()));
    assert!(cmds[0].append);
}

#[test]
fn parse_empty_line_gives_no_command() {
    let cmds = parse_commands(vec![], &no_env());
    assert!(cmds.is_empty());
}

#[test]
fn parse_bench_alone_gives_no_command() {
    let cmds = parse_commands(words(&["bench"]), &no_env());
    assert!(cmds.is_empty());
}

#[test]
fn parse_bench_marks_every_stage() {
    let cmds = parse_commands(words(&["bench", "ls", "|", "wc", "-l"]), &no_env());
    assert_eq!(cmds.len(), 2);
    assert!(cmds.iter().all(|c| c.bench));
    assert_eq!(cmds[1].args, vec!["wc", "-l"]);
}

#[test]
fn parse_bench_later_is_an_argument() {
    let cmds = parse_commands(words(&["ls", "bench"]), &no_env());
    assert_eq!(cmds.len(), 1);
    assert_eq!(cmds[0].args, vec!["ls", "bench"]);
    assert!(!cmds[0].bench);
}

#[test]
fn parse_empty_stage_between_pipes_is_kept() {
    let cmds = parse_commands(words(&["ls", "|", "|", "wc"]), &no_env());
    assert_eq!(cmds.len(), 3);
    assert!(cmds[1].args.is_empty());
    assert_eq!(cmds[2].args, vec!["wc"]);
}

#[test]
fn parse_trailing_pipe_drops_empty_last_stage() {
    let cmds = parse_commands(words(&["ls", "|"]), &no_env());
    assert_eq!(cmds.len(), 1);
    assert_eq!(cmds[0].args, vec!["ls"]);
}

#[test]
fn parse_redirection_without_file_is_ignored() {
    let cmds = parse_commands(words(&["ls", ">"]), &no_env());
    assert_eq!(cmds.len(), 1);
    assert_eq!(cmds[0].output_file, None);
    assert!(!cmds[0].append);
}

#[test]
fn parse_redirection_only_is_kept() {
    let cmds = parse_commands(words(&["<", "in.txt"]), &no_env());
    assert_eq!(cmds.len(), 1);
    assert!(cmds[0].args.is_empty());
    assert_eq!(cmds[0].input_file, Some("in.txt".to_string()));
}

#[test]
fn parse_later_output_redirection_wins() {
    let cmds = parse_commands(words(&["ls", ">>", "a", ">", "b"]), &no_env());
    assert_eq!(cmds[0].output_file, Some("b".to_string()));
    // The append flag, once set, stays set.
    assert!(cmds[0].append);
}

#[test]
fn parse_expands_arguments_and_files() {
    let env = Environment::new(
        Some("/home/ann".to_string()),
        vec![("DIR".to_string(), "logs".to_string())],
    );
    let cmds = parse_commands(words(&["cat", "~/notes", ">", "$DIR/out"]), &env);
    assert_eq!(cmds[0].args, vec!["cat", "/home/ann/notes"]);
    assert_eq!(cmds[0].output_file, Some("logs/out".to_string()));
}

#[test]
fn parse_operator_from_variable_is_an_argument() {
    let env = Environment::new(None, vec![("P".to_string(), "|".to_string())]);
    let cmds: Vec<CommandExecution> = parse_commands(words(&["echo", "$P", "x"]), &env);
    assert_eq!(cmds.len(), 1);
    assert_eq!(cmds[0].args, vec!["echo", "|", "x"]);
}

#[test]
fn parse_many_pipes_give_segments() {
    let cmds = parse_commands(words(&["a", "1", "|", "b", "|", "c", "2", "3", "|", "d"]), &no_env());
    assert_eq!(cmds.len(), 4);
    assert_eq!(cmds[0].args, vec!["a", "1"]);
    assert_eq!(cmds[1].args, vec!["b"]);
    assert_eq!(cmds[2].args, vec!["c", "2", "3"]);
    assert_eq!(cmds[3].args, vec!["d"]);
    assert!(cmds.iter().all(|c| c.input_file.is_none() && c.output_file.is_none() && !c.append));
}

#[test]
fn parse_trailing_operator_changes_nothing() {
    let with_op = parse_commands(words(&["sort", "<", "in", "<"]), &no_env());
    assert_eq!(with_op.len(), 1);
    assert_eq!(with_op[0].input_file, Some("in".to_string()));
    assert_eq!(with_op[0].args, vec!["sort"]);
}

#[test]
fn parse_last_input_wins() {
    let cmds = parse_commands(words(&["sort", "<", "a", "<", "b"]), &no_env());
    assert_eq!(cmds[0].input_file, Some("b".to_string()));
}

#[test]
fn parse_operator_consumes_next_word_as_file() {
    let cmds = parse_commands(words(&["ls", ">", "|", "wc"]), &no_env());
    assert_eq!(cmds.len(), 1);
    assert_eq!(cmds[0].output_file, Some("|".to_string()));
    assert_eq!(cmds[0].args, vec!["ls", "wc"]);
}

#[test]
fn parse_arguments_keep_their_order() {
    let cmds = parse_commands(words(&["bench", "a", "<", "f", "b", "|", "c", ">>", "g", "bench"]), &no_env());
    let all: Vec<String> = cmds.iter().flat_map(|c| c.args.clone()).collect();
    assert_eq!(all, vec!["a", "b", "c", "bench"]);
    assert!(cmds.iter().all(|c| c.bench));
}

#[test]
fn parse_each_segment_keeps_its_last_redirections() {
    let cmds = parse_commands(
        words(&["a", ">", "x", ">>", "y", "<", "i", "|", "b", ">", "z", "<", "j", "<", "k"]),
        &no_env(),
    );
    assert_eq!(cmds.len(), 2);
    assert_eq!(cmds[0].args, vec!["a"]);
    assert_eq!(cmds[0].output_file, Some("y".to_string()));
    assert_eq!(cmds[0].input_file, Some("i".to_string()));
    assert!(cmds[0].append);
    assert_eq!(cmds[1].args, vec!["b"]);
    assert_eq!(cmds[1].output_file, Some("z".to_string()));
    assert_eq!(cmds[1].input_file, Some("k".to_string()));
    assert!(!cmds[1].append);
}

#[test]
fn parse_redirection_in_middle_without_file_effect_is_none() {
    let cmds = parse_commands(words(&["a", "|", "b", ">>"]), &no_env());
    assert_eq!(cmds.len(), 2);
    assert_eq!(cmds[1].output_file, None);
    assert!(!cmds[1].append);
}

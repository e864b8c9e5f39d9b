use shparse::command::Batch;
use shparse::command::Command;
use shparse::job::Job;
use shparse::ParseError;

#[test]
fn command_empty_line() {
    let s = "";
    let job = Batch::new(s).unwrap();
    assert_eq!(job.cmds, vec![]);
}

#[test]
fn command_single_command_without_arguments() {
    let s = "echo";
    let args: Vec<String> = Vec::new();
    let job = Batch::new(s).unwrap();
    assert_eq!(job.cmds.len(), 1);
    assert_eq!(job.cmds[0].cmd, "echo");
    assert_eq!(job.cmds[0].args, args);
    assert_eq!(job.input, None);
    assert_eq!(job.output, None);
}

#[test]
fn command_single_command_with_arguments() {
    let s = "wc -l file.txt";
    let job = Batch::new(s).unwrap();
    assert_eq!(job.cmds.len(), 1);
    assert_eq!(job.cmds[0].cmd, "wc");
    assert_eq!(job.cmds[0].args, vec!["-l", "file.txt"]);
    assert_eq!(job.input, None);
    assert_eq!(job.output, None);
}

#[test]
fn command_two_piped_commands() {
    let s = "cat file.txt | wc -l";
    let job = Batch::new(s).unwrap();
    assert_eq!(job.cmds.len(), 2);
    assert_eq!(job.cmds[0].cmd, "cat");
    assert_eq!(job.cmds[0].args, vec!["file.txt"]);
    assert_eq!(job.cmds[1].cmd, "wc");
    assert_eq!(job.cmds[1].args, vec!["-l"]);
    assert_eq!(job.input, None);
    assert_eq!(job.output, None);
}

#[test]
fn one_command_with_input_redirection() {
    let s = "cat < input.txt";
    let job = Batch::new(s).unwrap();
    assert_eq!(job.cmds.len(), 1);
    assert_eq!(job.cmds[0].cmd, "cat");
    assert_eq!(job.input.unwrap(), "input.txt");
    assert!(job.cmds[0].args.is_empty());
    assert_eq!(job.output, None);
}

#[test]
fn one_command_with_output_redirection() {
    let s = "cat input.txt > output.txt";
    let job = Batch::new(s).unwrap();
    assert_eq!(job.cmds.len(), 1);
    assert_eq!(job.cmds[0].cmd, "cat");
    assert_eq!(job.output.unwrap(), "output.txt");
    assert_eq!(job.cmds[0].args, vec!["input.txt"]);
    assert_eq!(job.input, None);
}

#[test]
fn one_command_with_input_and_output_redirection_1() {
    let s = "cat < input.txt > output.txt";
    let job = Batch::new(s).unwrap();
    assert_eq!(job.cmds.len(), 1);
    assert_eq!(job.cmds[0].cmd, "cat");
    assert_eq!(job.input.unwrap(), "input.txt");
    assert_eq!(job.output.unwrap(), "output.txt");
    assert!(job.cmds[0].args.is_empty());
}

#[test]
fn one_command_with_input_and_output_redirection_2() {
    let s = "cat > output.txt < input.txt";
    let job = Batch::new(s).unwrap();
    assert_eq!(job.cmds.len(), 1);
    assert_eq!(job.cmds[0].cmd, "cat");
    assert_eq!(job.input.unwrap(), "input.txt");
    assert_eq!(job.output.unwrap(), "output.txt");
    assert!(job.cmds[0].args.is_empty());
}

#[test]
fn job_empty_line() {
    let s = "";
    let job = Job::new(s).unwrap();
    assert_eq!(job.cmds, vec![]);
}

#[test]
fn job_single_command_without_arguments() {
    let s = "echo";
    let args: Vec<String> = Vec::new();
    let job = Job::new(s).unwrap();
    assert_eq!(job.cmds.len(), 1);
    assert_eq!(job.cmds[0].cmd, "echo");
    assert_eq!(job.cmds[0].args, args);
}

#[test]
fn job_single_command_with_arguments() {
    let s = "wc -l file.txt";
    let job = Job::new(s).unwrap();
    assert_eq!(job.cmds.len(), 1);
    assert_eq!(job.cmds[0].cmd, "wc");
    assert_eq!(job.cmds[0].args, vec!["-l", "file.txt"]);
}

#[test]
fn job_two_piped_commands() {
    let s = "cat file.txt | wc -l";
    let job = Job::new(s).unwrap();
    assert_eq!(job.cmds.len(), 2);
    assert_eq!(job.cmds[0].cmd, "cat");
    assert_eq!(job.cmds[0].args, vec!["file.txt"]);
    assert_eq!(job.cmds[1].cmd, "wc");
    assert_eq!(job.cmds[1].args, vec!["-l"]);
}

#[test]
fn three_piped_commands_in_order() {
    let job = Batch::new("cmd1 | cmd2 | cmd3").unwrap();
    assert_eq!(job.cmds.len(), 3);
    assert_eq!(job.cmds[0].cmd, "cmd1");
    assert_eq!(job.cmds[1].cmd, "cmd2");
    assert_eq!(job.cmds[2].cmd, "cmd3");
}

#[test]
fn redirect_order_does_not_matter() {
    let a = Batch::new("cat < in.txt > out.txt").unwrap();
    let b = Batch::new("cat > out.txt < in.txt").unwrap();
    assert_eq!(a, b);
    assert_eq!(a.input.unwrap(), "in.txt");
    assert_eq!(a.output.unwrap(), "out.txt");
    assert_eq!(a.cmds.len(), 1);
    assert_eq!(a.cmds[0].cmd, "cat");
    assert!(a.cmds[0].args.is_empty());
}

#[test]
fn output_redirection_keeps_arguments() {
    let job = Batch::new("cat file.txt > out.txt").unwrap();
    assert_eq!(job.cmds.len(), 1);
    assert_eq!(job.cmds[0].cmd, "cat");
    assert_eq!(job.cmds[0].args, vec!["file.txt"]);
    assert_eq!(job.output.unwrap(), "out.txt");
    assert_eq!(job.input, None);
    assert!(!job.is_async);
}

#[test]
fn empty_line_is_not_an_error() {
    let job = Batch::new("").unwrap();
    assert_eq!(job.cmds.len(), 0);
    assert_eq!(job.input, None);
    assert_eq!(job.output, None);
    assert!(!job.is_async);
}

#[test]
fn whitespace_only_line_has_no_commands() {
    let job = Batch::new(" \t  ").unwrap();
    assert_eq!(job.cmds.len(), 0);
    assert_eq!(job.input, None);
    assert_eq!(job.output, None);
}

#[test]
fn double_pipe_is_an_empty_command() {
    let r = Batch::new("a || b");
    assert_eq!(r.unwrap_err(), ParseError::EmptyCommandToken);
}

#[test]
fn trailing_pipe_is_an_empty_command() {
    let r = Batch::new("a |");
    assert_eq!(r.unwrap_err(), ParseError::EmptyCommandToken);
}

#[test]
fn missing_output_path_is_malformed() {
    let r = Batch::new("cmd >");
    assert_eq!(r.unwrap_err(), ParseError::MalformedRedirection);
}

#[test]
fn missing_input_path_is_malformed() {
    let r = Batch::new("cmd <");
    assert_eq!(r.unwrap_err(), ParseError::MalformedRedirection);
}

#[test]
fn background_marker_sets_the_flag() {
    let job = Batch::new("sleep 10 &").unwrap();
    assert!(job.is_async);
    assert_eq!(job.cmds.len(), 1);
    assert_eq!(job.cmds[0].cmd, "sleep");
    // The marker is not stripped before tokenization, so it stays in the
    // argument list.
    assert_eq!(job.cmds[0].args, vec!["10", "&"]);
}

#[test]
fn redirections_without_commands_are_valid() {
    let job = Batch::new("< in.txt").unwrap();
    assert_eq!(job.cmds.len(), 0);
    assert_eq!(job.input.unwrap(), "in.txt");
    assert_eq!(job.output, None);
}

#[test]
fn unspaced_redirection_paths_are_kept_whole() {
    let job = Batch::new("cat <in.txt >out.txt").unwrap();
    assert_eq!(job.cmds.len(), 1);
    assert_eq!(job.cmds[0].cmd, "cat");
    assert_eq!(job.input.unwrap(), "in.txt");
    assert_eq!(job.output.unwrap(), "out.txt");
}

#[test]
fn reparsing_a_reconstructed_command_is_idempotent() {
    let job = Batch::new("wc -l file.txt").unwrap();
    let first = &job.cmds[0];
    let mut text = first.cmd.clone();
    for a in &first.args {
        text = format!("{} {}", text, a);
    }
    assert_eq!(text, "wc -l file.txt");
    let again = Batch::new(&text).unwrap();
    assert_eq!(again.cmds.len(), 1);
    assert_eq!(again.cmds[0], job.cmds[0]);
    assert_eq!(again.input, None);
    assert_eq!(again.output, None);
}

#[test]
fn command_new_keeps_name_and_arguments() {
    let c = Command::new("grep".to_string(), vec!["-r".to_string(), "x".to_string()]);
    assert_eq!(c.cmd, "grep");
    assert_eq!(c.args, vec!["-r", "x"]);
    let jc = shparse::job::Command::new("ls".to_string(), Vec::new());
    assert_eq!(jc.cmd, "ls");
    assert!(jc.args.is_empty());
}

#[test]
fn job_trailing_pipe_is_an_empty_command() {
    let r = Job::new("a |");
    assert_eq!(r.unwrap_err(), ParseError::EmptyCommandToken);
}

#[test]
fn job_leaves_redirection_operators_in_tokens() {
    let job = Job::new("cat < in.txt").unwrap();
    assert_eq!(job.cmds.len(), 1);
    assert_eq!(job.cmds[0].cmd, "cat");
    assert_eq!(job.cmds[0].args, vec!["<", "in.txt"]);
    assert_eq!(job.input, None);
    assert_eq!(job.output, None);
}

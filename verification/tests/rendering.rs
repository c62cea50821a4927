use headr::args::Args;
use headr::output::header_line;
use headr::output::input_block;
use headr::output::limit_output;
use headr::output::run_stdout;

fn args(files: &[&str], lines: usize, bytes: Option<usize>) -> Args {
    Args { files: files.iter().map(|f| String::from(*f)).collect(), lines, bytes }
}

#[test]
fn header_forms() {
    assert_eq!(header_line("f1", 0), "==> f1 <==\n");
    assert_eq!(header_line("f2", 1), "\n==> f2 <==\n");
}

#[test]
fn single_input_gets_no_header() {
    let content = Some(b"x\n".to_vec());
    let block = input_block("f1", 0, 1, &content, 10, None);
    assert_eq!(block, b"x\n".to_vec());
}

#[test]
fn two_files_default_limit() {
    let a = args(&["f1", "f2"], 10, None);
    let contents = vec![Some(b"x\n".to_vec()), Some(b"y\n".to_vec())];
    let out = run_stdout(&a, &contents);
    assert_eq!(out, b"==> f1 <==\nx\n\n==> f2 <==\ny\n".to_vec());
}

#[test]
fn failed_input_skipped_but_run_goes_on() {
    let a = args(&["missing", "f2"], 10, None);
    let contents = vec![None, Some(b"y\n".to_vec())];
    let out = run_stdout(&a, &contents);
    assert_eq!(out, b"\n==> f2 <==\ny\n".to_vec());
}

#[test]
fn single_input_run_is_bare_prefix() {
    let a = args(&["f1"], 1, None);
    let contents = vec![Some(b"x\ny\n".to_vec())];
    assert_eq!(run_stdout(&a, &contents), b"x\n".to_vec());
}

#[test]
fn byte_mode_run_with_headers() {
    let a = args(&["f1", "f2"], 10, Some(2));
    let contents = vec![Some(b"abcd".to_vec()), Some(b"e".to_vec())];
    let out = run_stdout(&a, &contents);
    assert_eq!(out, b"==> f1 <==\nab\n==> f2 <==\ne".to_vec());
}

#[test]
fn zero_byte_limit_outputs_nothing() {
    assert_eq!(limit_output(&b"abc".to_vec(), 10, Some(0)), Vec::<u8>::new());
}

#[test]
fn headers_printed_even_for_empty_prefix() {
    let a = args(&["f1", "f2"], 0, None);
    let contents = vec![Some(b"x\n".to_vec()), Some(b"y\n".to_vec())];
    let out = run_stdout(&a, &contents);
    assert_eq!(out, b"==> f1 <==\n\n==> f2 <==\n".to_vec());
}

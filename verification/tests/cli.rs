use abr2png::cli::{command_from, Command, Matched};
use abr2png::err::Error;

fn s(text: &str) -> String {
    text.to_string()
}

fn matched(help: bool, output: Option<&str>, free: &[&str], stem: Option<&str>) -> Option<Matched> {
    Some(Matched {
        help,
        output: output.map(s),
        free: free.iter().map(|f| s(f)).collect(),
        stem: stem.map(s),
    })
}

#[test]
fn failed_parsing_is_bad_command_line_options() {
    assert_eq!(command_from(None), Err(Error::BadCommandlineOptions));
}

#[test]
fn help_wins_over_everything() {
    assert_eq!(command_from(matched(true, None, &[], None)), Ok(Command::Help));
    assert_eq!(
        command_from(matched(true, Some("out"), &["a.abr", "b.abr"], Some("a"))),
        Ok(Command::Help)
    );
}

#[test]
fn one_input_and_an_output_directory() {
    assert_eq!(
        command_from(matched(false, Some("out"), &["brushes.abr"], Some("brushes"))),
        Ok(Command::Process { input_path: s("brushes.abr"), output_path: s("out") })
    );
    assert_eq!(
        command_from(matched(false, Some("out"), &[".."], None)),
        Ok(Command::Process { input_path: s(".."), output_path: s("out") })
    );
}

#[test]
fn the_output_directory_defaults_to_the_stem_of_the_input() {
    assert_eq!(
        command_from(matched(false, None, &["dir/mybrushes.abr"], Some("mybrushes"))),
        Ok(Command::Process { input_path: s("dir/mybrushes.abr"), output_path: s("mybrushes") })
    );
}

#[test]
fn no_input_file_is_the_wrong_number() {
    assert_eq!(
        command_from(matched(false, Some("out"), &[], None)),
        Err(Error::WrongNumberOfInputFiles(0))
    );
}

#[test]
fn several_input_files_are_the_wrong_number() {
    assert_eq!(
        command_from(matched(false, None, &["a.abr", "b.abr"], Some("a"))),
        Err(Error::WrongNumberOfInputFiles(2))
    );
    assert_eq!(
        command_from(matched(false, Some("o"), &["a", "b", "c"], Some("a"))),
        Err(Error::WrongNumberOfInputFiles(3))
    );
}

#[test]
fn an_input_without_a_stem_gives_no_output_name() {
    assert_eq!(
        command_from(matched(false, None, &[".."], None)),
        Err(Error::CouldntGuessOutputName)
    );
}

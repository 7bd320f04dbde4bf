use lib::{
    parse_str, Argument, Command, Config, Error, Feed, Layer, NoLayer, Output, Success,
};

fn extract<'a, T, E, L: Layer<T, E>>(
    command: Command<L>,
    config: Config,
    argument: &[&'a str],
    layer: T,
) -> (Result<Success<T>, Error<'a, E>>, String) {
    let mut output = Output::new().writer_fmt();
    let value = parse_str(&mut output, config, command, argument, layer);
    (value, output.text)
}

/// Takes exactly one value and records it.
#[derive(Debug, Clone, PartialEq)]
struct PushOne;

impl Layer<Vec<String>, ()> for PushOne {
    fn run(&self, mut input: Vec<String>, next: &mut Feed<'_, '_>) -> Result<Vec<String>, ()> {
        let a = next.next().map(String::from).unwrap();
        input.push(a);
        assert_eq!(next.next(), None);
        Ok(input)
    }
}

/// Records the next two values.
#[derive(Debug, Clone, PartialEq)]
struct TakeTwo;

impl Layer<(Option<String>, Option<String>), ()> for TakeTwo {
    fn run(
        &self,
        _input: (Option<String>, Option<String>),
        next: &mut Feed<'_, '_>,
    ) -> Result<(Option<String>, Option<String>), ()> {
        let a = next.next().map(String::from);
        let b = next.next().map(String::from);
        Ok((a, b))
    }
}

#[test]
fn test_default() {
    let command: Command<NoLayer> = Command::new();
    let config = Config::new();
    let result = extract::<(), (), NoLayer>(command, config, &[], ());
    assert_eq!(result, (Ok(Success::Layer(())), String::new()));
}

#[test]
fn test_help_default() {
    let command: Command<NoLayer> = Command::new().argument(vec![Argument::new().action_help()]);
    let config = Config::new();
    let result = extract::<(), (), NoLayer>(command, config, &[""], ());

    let check = "\
		usage:[<unknown>]\n\
		options:\n\
	";

    assert_eq!(result, (Ok(Success::Help), check.to_string()));
}

#[test]
fn test_help_one_named_argument_no_description() {
    let command: Command<NoLayer> = Command::new()
        .argument(vec![Argument::new().named(&["help"], &['h']).action_help()]);
    let config = Config::new();
    let result = extract::<(), (), NoLayer>(command, config, &["--help"], ());

    let check = "\
usage: <options>
options:
  -h, --help
";

    assert_eq!(result, (Ok(Success::Help), check.to_string()));
}

#[test]
fn test_help_one_named_argument_with_description() {
    let command: Command<NoLayer> = Command::new().argument(vec![
        Argument::new()
            .named(&["help"], &['h'])
            .help("this displays help information for anyone that may need it, someday, someday. sorry I need another sentence to test wrapping.")
            .action_help(),
    ]);
    let config = Config::new();
    let result = extract::<(), (), NoLayer>(command, config, &["--help"], ());

    let check = "\
usage: <options>
options:
  -h, --help
         this displays help information for anyone that may need it,
         someday, someday. sorry I need another sentence to test
         wrapping.
";

    assert_eq!(result, (Ok(Success::Help), check.to_string()));
}

fn positional_command() -> Command<PushOne> {
    Command::new().argument(vec![
        Argument::new().positional("a").action_layer(PushOne),
        Argument::new().positional("b").action_layer(PushOne),
    ])
}

#[test]
fn test_positional() {
    let result = extract::<Vec<String>, (), PushOne>(positional_command(), Config::new(), &[], Vec::new());
    assert_eq!(result, (Ok(Success::Layer(vec![])), String::new()));

    let result = extract::<Vec<String>, (), PushOne>(positional_command(), Config::new(), &["meow"], Vec::new());
    assert_eq!(result, (Ok(Success::Layer(vec!["meow".to_string()])), String::new()));

    let result = extract::<Vec<String>, (), PushOne>(
        positional_command(),
        Config::new(),
        &["meow-x", "meow-y"],
        Vec::new(),
    );
    assert_eq!(
        result,
        (Ok(Success::Layer(vec!["meow-x".to_string(), "meow-y".to_string()])), String::new())
    );

    let result = extract::<Vec<String>, (), PushOne>(
        positional_command(),
        Config::new(),
        &["meow-x", "meow-y", "uh oh"],
        Vec::new(),
    );
    assert_eq!(result, (Err(Error::BadPositional("uh oh")), String::new()));
}

#[test]
fn test_positional_truncation() {
    let command: Command<PushOne> = Command::new();
    let check = "abcdefghjiklmnopqrstuvwxyz0123456789!@#$%^&*()";

    let result = extract::<Vec<String>, (), PushOne>(command, Config::new(), &[check], Vec::new());
    assert_eq!(result, (Err(Error::BadPositional(&check[0..31])), String::new()));
}

fn splitting_command() -> Command<TakeTwo> {
    Command::new().argument(vec![
        Argument::new().named(&["enabled"], &['x']).splitting(true).action_layer(TakeTwo),
        Argument::new().named(&["disabled"], &['y']).splitting(false).action_layer(TakeTwo),
    ])
}

#[test]
fn test_name_splitting() {
    type Pair = (Option<String>, Option<String>);
    let config = || Config::new().splitting("=");

    let result = extract::<Pair, (), TakeTwo>(splitting_command(), config(), &["--enabled=meow"], (None, None));
    assert_eq!(result, (Ok(Success::Layer((Some("meow".to_string()), None))), String::new()));

    let result = extract::<Pair, (), TakeTwo>(splitting_command(), config(), &["--enabled==meow"], (None, None));
    assert_eq!(result, (Ok(Success::Layer((Some("=meow".to_string()), None))), String::new()));

    let result = extract::<Pair, (), TakeTwo>(splitting_command(), config(), &["--enabled", "meow"], (None, None));
    assert_eq!(result, (Ok(Success::Layer((Some("meow".to_string()), None))), String::new()));

    let result = extract::<Pair, (), TakeTwo>(
        splitting_command(),
        config(),
        &["--enabled=meow-x", "meow-y"],
        (None, None),
    );
    assert_eq!(
        result,
        (Ok(Success::Layer((Some("meow-x".to_string()), Some("meow-y".to_string())))), String::new())
    );

    let result = extract::<Pair, (), TakeTwo>(splitting_command(), config(), &["-x=meow"], (None, None));
    assert_eq!(result, (Err(Error::BadShort('=')), String::new()));

    let result = extract::<Pair, (), TakeTwo>(splitting_command(), config(), &["--disabled=meow"], (None, None));
    assert_eq!(result, (Err(Error::BadLong("disabled=meow")), String::new()));
}

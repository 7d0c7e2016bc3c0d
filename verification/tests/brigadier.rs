use azalea::brigadier::arguments::{ArgumentType, ArgumentValue};
use azalea::brigadier::command_dispatcher::CommandDispatcher;
use azalea::brigadier::context::CommandContext;
use azalea::brigadier::errors::{BuiltInError, CommandSyntaxError, StringRange};
use azalea::brigadier::parse_results::CommandSource;
use azalea::brigadier::string_reader::StringReader;
use azalea::brigadier::suggestion::{Suggestion, Suggestions};
use azalea::brigadier::tree::{argument, literal, name_order, NameOrder};
use std::cell::RefCell;

/// A source with a permission level: it meets the requirements up to its
/// level. Command 0 gives 42; any other gives its own number plus the
/// integer argument of node `amount`, if there is one. It notes each
/// command that it runs, with the place where the command's context began.
struct Source {
    level: u32,
    amount: usize,
    asked: RefCell<Vec<u32>>,
    ran: RefCell<Vec<(u32, usize)>>,
}

impl Source {
    fn new(level: u32) -> Source {
        Source {
            level,
            amount: usize::MAX,
            asked: RefCell::new(Vec::new()),
            ran: RefCell::new(Vec::new()),
        }
    }
}

impl CommandSource for Source {
    fn allows(&self, requirement: u32) -> bool {
        self.asked.borrow_mut().push(requirement);
        requirement <= self.level
    }

    fn run(&self, command: u32, context: &CommandContext, _input: &StringReader) -> i32 {
        self.ran.borrow_mut().push((command, context.range.start));
        if command == 0 {
            return 42;
        }
        let extra = match context.argument(self.amount) {
            Some(a) => match a.value {
                ArgumentValue::Integer(v) => v,
                _ => 0,
            },
            None => 0,
        };
        command as i32 + extra
    }

    fn suggest(&self, provider: u32, input: &Vec<char>, start: usize) -> Vec<Vec<char>> {
        // Provider 1 knows three players; it offers those that begin as the input does.
        let typed: String = input[start.min(input.len())..].iter().collect();
        ["Alex", "Steve", "alexa"]
            .iter()
            .filter(|name| provider == 1 && name.to_lowercase().starts_with(&typed.to_lowercase()))
            .map(|name| name.chars().collect())
            .collect()
    }
}

fn chars(text: &str) -> Vec<char> {
    text.chars().collect()
}

#[test]
fn dispatch_literal_runs_its_command() {
    let mut dispatcher = CommandDispatcher::new();
    dispatcher.register(literal("foo").executes(0)).unwrap();
    let source = Source::new(0);
    assert_eq!(dispatcher.execute("foo", &source), Ok(42));
    assert_eq!(
        dispatcher.execute("foo bar", &source),
        Err(CommandSyntaxError { kind: BuiltInError::DispatcherUnknownArgument, cursor: 4 })
    );
    assert_eq!(
        dispatcher.execute("", &source),
        Err(CommandSyntaxError { kind: BuiltInError::DispatcherUnknownCommand, cursor: 0 })
    );
    assert_eq!(
        dispatcher.execute("bar", &source),
        Err(CommandSyntaxError { kind: BuiltInError::DispatcherUnknownCommand, cursor: 0 })
    );
}

#[test]
fn dispatch_follows_a_redirect_to_the_root() {
    let mut dispatcher = CommandDispatcher::new();
    let a = dispatcher.register(literal("a").executes(7)).unwrap();
    let b = dispatcher.add_child(a, literal("b").redirect(0)).unwrap();
    let source = Source::new(0);
    // "a b" leads back to the root, where "a" is executable.
    assert_eq!(dispatcher.execute("a", &source), Ok(7));
    assert_eq!(dispatcher.execute("a b a", &source), Ok(7));
    assert_eq!(dispatcher.execute("a b a b a", &source), Ok(7));
    let parse = dispatcher.parse(StringReader::new("a b a b a"), &source);
    assert_eq!(parse.reader.cursor(), 9);
    assert!(parse.exceptions.is_empty());
    assert_eq!(parse.context.nodes.len(), 2);
    assert_eq!(parse.context.nodes[1].node, b);
    let second = parse.context.child.as_ref().unwrap();
    assert_eq!(second.root, 0);
    assert_eq!(second.range, StringRange { start: 4, end: 7 });
    let third = second.child.as_ref().unwrap();
    assert_eq!(third.command, Some(7));
    assert!(third.child.is_none());
    // The input may end at "b" too: the action of "a" runs once for each
    // "a b", in the order of the input.
    let source = Source::new(0);
    assert_eq!(dispatcher.execute("a b a b", &source), Ok(7));
    assert_eq!(*source.ran.borrow(), vec![(7, 0), (7, 4)]);
    let parse = dispatcher.parse(StringReader::new("a b a b"), &source);
    assert_eq!(parse.reader.cursor(), 7);
    assert!(!parse.reader.can_read());
    assert!(parse.exceptions.is_empty());
    assert_eq!(parse.context.command, Some(7));
    assert_eq!(parse.context.range, StringRange { start: 0, end: 3 });
    let second = parse.context.child.as_ref().unwrap();
    assert_eq!(second.command, Some(7));
    assert_eq!(second.range, StringRange { start: 4, end: 7 });
    assert!(second.child.is_none());
    assert_eq!(dispatcher.execute_parsed(parse, &source), Ok(7));
    // Where "b" runs something too, its action is the last.
    let mut dispatcher = CommandDispatcher::new();
    let a = dispatcher.register(literal("a").executes(7)).unwrap();
    dispatcher.add_child(a, literal("b").redirect(0).executes(8)).unwrap();
    let source = Source::new(0);
    assert_eq!(dispatcher.execute("a b a b", &source), Ok(8));
    assert_eq!(*source.ran.borrow(), vec![(8, 0), (8, 4)]);
    assert_eq!(dispatcher.execute("a b a", &source), Ok(7));
}

#[test]
fn a_chain_without_an_action_is_no_command() {
    let mut dispatcher = CommandDispatcher::new();
    let a = dispatcher.register(literal("a")).unwrap();
    dispatcher.add_child(a, literal("b").redirect(0)).unwrap();
    let source = Source::new(0);
    assert_eq!(
        dispatcher.execute("a b a b", &source),
        Err(CommandSyntaxError { kind: BuiltInError::DispatcherUnknownCommand, cursor: 7 })
    );
    assert!(source.ran.borrow().is_empty());
    // A node without an action leaves the action of the node before it.
    let mut dispatcher = CommandDispatcher::new();
    let say = dispatcher.register(literal("say").executes(5)).unwrap();
    let loud = dispatcher.add_child(say, literal("loud")).unwrap();
    dispatcher.add_child(loud, literal("twice").executes(6)).unwrap();
    assert_eq!(dispatcher.execute("say", &source), Ok(5));
    assert_eq!(dispatcher.execute("say loud", &source), Ok(5));
    assert_eq!(dispatcher.execute("say loud twice", &source), Ok(6));
    assert_eq!(*source.ran.borrow(), vec![(5, 0), (5, 0), (6, 0)]);
}

#[test]
fn arguments_are_parsed_and_handed_to_the_command() {
    let mut dispatcher = CommandDispatcher::new();
    let give = dispatcher.register(literal("give")).unwrap();
    let amount = dispatcher
        .add_child(give, argument("amount", ArgumentType::Integer { min: 0, max: 64 }).executes(100))
        .unwrap();
    let mut source = Source::new(0);
    source.amount = amount;
    assert_eq!(dispatcher.execute("give 5", &source), Ok(105));
    let parse = dispatcher.parse(StringReader::new("give 5"), &source);
    assert_eq!(parse.context.argument(amount).unwrap().value, ArgumentValue::Integer(5));
    assert_eq!(parse.context.argument(give), None);
    assert_eq!(CommandDispatcher::argument_text(&parse.context, &parse.reader, amount), None);
    assert_eq!(dispatcher.execute("give 64", &source), Ok(164));
    assert_eq!(
        dispatcher.execute("give 65", &source),
        Err(CommandSyntaxError {
            kind: BuiltInError::IntegerTooBig { found: 65, max: 64 },
            cursor: 5
        })
    );
    assert_eq!(
        dispatcher.execute("give -1", &source).unwrap_err().kind,
        BuiltInError::IntegerTooSmall { found: -1, min: 0 }
    );
    assert_eq!(
        dispatcher.execute("give x", &source),
        Err(CommandSyntaxError { kind: BuiltInError::ReaderExpectedInt, cursor: 5 })
    );
    assert_eq!(
        dispatcher.execute("give 1.5", &source).unwrap_err().kind,
        BuiltInError::ReaderInvalidInt { value: StringRange { start: 5, end: 8 } }
    );
    assert_eq!(
        dispatcher.execute("give 5x", &source),
        Err(CommandSyntaxError {
            kind: BuiltInError::DispatcherExpectedArgumentSeparator,
            cursor: 6
        })
    );
    assert_eq!(
        dispatcher.execute("give", &source).unwrap_err().kind,
        BuiltInError::DispatcherUnknownCommand
    );
}

#[test]
fn literal_comes_before_arguments_and_full_parse_wins() {
    let mut dispatcher = CommandDispatcher::new();
    let word = dispatcher.register(argument("word", ArgumentType::Word).executes(1)).unwrap();
    dispatcher.add_child(word, literal("more").executes(2)).unwrap();
    let stop = dispatcher.register(literal("stop").executes(3)).unwrap();
    let source = Source::new(0);
    // Both the literal and the argument take "stop"; the literal was tried first.
    assert_eq!(dispatcher.execute("stop", &source), Ok(3));
    // Only the argument's branch takes all the input.
    assert_eq!(dispatcher.execute("stop more", &source), Ok(2));
    let parse = dispatcher.parse(StringReader::new("stop more"), &source);
    assert_eq!(parse.context.nodes[0].node, word);
    assert_ne!(parse.context.nodes[0].node, stop);
    assert_eq!(dispatcher.execute("go", &source), Ok(1));
    let parse = dispatcher.parse(StringReader::new("go"), &source);
    assert_eq!(
        CommandDispatcher::argument_text(&parse.context, &parse.reader, word),
        Some("go".to_string())
    );
}

#[test]
fn requirements_hide_nodes() {
    let mut dispatcher = CommandDispatcher::new();
    dispatcher.register(literal("op").requiring(4).executes(9)).unwrap();
    dispatcher.register(literal("me").executes(8)).unwrap();
    let player = Source::new(0);
    let admin = Source::new(4);
    assert_eq!(
        dispatcher.execute("op", &player).unwrap_err().kind,
        BuiltInError::DispatcherUnknownCommand
    );
    assert_eq!(dispatcher.execute("op", &admin), Ok(9));
    assert_eq!(dispatcher.execute("me", &player), Ok(8));
    assert_eq!(dispatcher.answers(&player), vec![true, false, true]);
    assert_eq!(dispatcher.answers(&admin), vec![true, true, true]);
    assert_eq!(*admin.asked.borrow(), vec![4, 4]);
    assert!(!dispatcher.can_use(1, &player));
    assert!(dispatcher.can_use(2, &player));
    let allowed = vec![true, true, false];
    let parse = dispatcher.parse_allowed(StringReader::new("me"), &allowed);
    assert!(parse.reader.can_read());
    assert_eq!(
        dispatcher.get_all_usage(0, &player, true),
        vec!["me".to_string()]
    );
    assert_eq!(
        dispatcher.get_all_usage(0, &player, false),
        vec!["me".to_string(), "op".to_string()]
    );
}

#[test]
fn executing_is_deterministic() {
    let mut first = CommandDispatcher::new();
    let mut second = CommandDispatcher::new();
    for dispatcher in [&mut first, &mut second] {
        let a = dispatcher.register(literal("a").executes(1)).unwrap();
        dispatcher.add_child(a, argument("n", ArgumentType::integer()).executes(2)).unwrap();
        dispatcher.add_child(a, argument("w", ArgumentType::Word).executes(3)).unwrap();
    }
    let source = Source::new(0);
    for input in ["a", "a 12", "a twelve", "a 12 x", "b", "a  "] {
        assert_eq!(first.execute(input, &source), second.execute(input, &source));
        assert_eq!(first.execute(input, &source), first.execute(input, &source));
        assert_eq!(
            first.parse(StringReader::new(input), &source),
            second.parse(StringReader::new(input), &source)
        );
    }
    // Both arguments take "12"; they are tried in the order of their names.
    assert_eq!(first.execute("a 12", &source), Ok(2));
    assert_eq!(first.execute("a twelve", &source), Ok(3));
}

#[test]
fn register_merges_nodes_of_one_name() {
    let mut dispatcher = CommandDispatcher::new();
    let first = dispatcher.register(literal("x")).unwrap();
    let second = dispatcher.register(literal("x").executes(5)).unwrap();
    assert_eq!(first, second);
    assert_eq!(dispatcher.len(), 2);
    assert_eq!(dispatcher.node(first).unwrap().command, Some(5));
    let third = dispatcher.register(literal("x")).unwrap();
    assert_eq!(third, first);
    assert_eq!(dispatcher.node(first).unwrap().command, Some(5));
    assert_eq!(dispatcher.add_child(9, literal("y")), None);
    assert_eq!(dispatcher.register(literal("z").redirect(9)), None);
    assert_eq!(dispatcher.len(), 2);
    assert_eq!(dispatcher.root(), 0);
}

#[test]
fn children_are_kept_in_the_order_of_their_names() {
    let mut dispatcher = CommandDispatcher::new();
    let c = dispatcher.register(literal("c")).unwrap();
    let a = dispatcher.register(literal("a")).unwrap();
    let b = dispatcher.register(literal("b")).unwrap();
    let ab = dispatcher.register(literal("ab")).unwrap();
    assert_eq!(dispatcher.node(0).unwrap().children, vec![a, ab, b, c]);
    assert_eq!(name_order(&chars("a"), &chars("ab")), NameOrder::Before);
    assert_eq!(name_order(&chars("b"), &chars("ab")), NameOrder::After);
    assert_eq!(name_order(&chars("ab"), &chars("ab")), NameOrder::Same);
}

#[test]
fn find_node_and_get_path() {
    let mut dispatcher = CommandDispatcher::new();
    let foo = dispatcher.register(literal("foo")).unwrap();
    let bar = dispatcher.add_child(foo, literal("bar")).unwrap();
    let baz = dispatcher.add_child(bar, argument("baz", ArgumentType::Bool)).unwrap();
    let other = dispatcher.register(literal("other")).unwrap();
    assert_eq!(dispatcher.find_node(&["foo", "bar", "baz"]), Some(baz));
    assert_eq!(dispatcher.find_node(&["foo", "baz"]), None);
    assert_eq!(dispatcher.find_node(&[]), Some(0));
    assert_eq!(dispatcher.child(foo, "bar"), Some(bar));
    assert_eq!(dispatcher.child(foo, "nope"), None);
    assert_eq!(
        dispatcher.get_path(baz),
        vec!["foo".to_string(), "bar".to_string(), "baz".to_string()]
    );
    assert_eq!(dispatcher.get_path(0), Vec::<String>::new());
    assert_eq!(dispatcher.get_path(99), Vec::<String>::new());
    let mut paths = Vec::new();
    dispatcher.add_paths(0, &mut paths, Vec::new());
    assert_eq!(
        paths,
        vec![vec![0], vec![0, foo], vec![0, foo, bar], vec![0, foo, bar, baz], vec![0, other]]
    );
}

#[test]
fn all_usage_lists_every_executable_path() {
    let mut dispatcher = CommandDispatcher::new();
    let tp = dispatcher.register(literal("tp").executes(1)).unwrap();
    let x = dispatcher.add_child(tp, argument("x", ArgumentType::integer())).unwrap();
    dispatcher.add_child(x, argument("y", ArgumentType::integer()).executes(2)).unwrap();
    let home = dispatcher.register(literal("home").executes(3)).unwrap();
    dispatcher.register(literal("teleport").redirect(tp)).unwrap();
    dispatcher.add_child(home, literal("again").redirect(0)).unwrap();
    let source = Source::new(0);
    assert_eq!(
        dispatcher.get_all_usage(0, &source, false),
        vec![
            "home".to_string(),
            "home again ...".to_string(),
            "teleport -> tp".to_string(),
            "tp".to_string(),
            "tp <x> <y>".to_string(),
        ]
    );
    assert_eq!(
        dispatcher.get_all_usage(tp, &source, false),
        vec!["".to_string(), "<x> <y>".to_string()]
    );
    assert!(dispatcher.get_all_usage(99, &source, false).is_empty());
    assert!(dispatcher.get_smart_usage(99, &source).is_empty());
}

#[test]
fn smart_usage_folds_the_choices() {
    let mut dispatcher = CommandDispatcher::new();
    let a = dispatcher.register(literal("a")).unwrap();
    let one = dispatcher.add_child(a, literal("1").executes(1)).unwrap();
    dispatcher.add_child(one, literal("i")).unwrap();
    dispatcher.add_child(one, literal("ii")).unwrap();
    let two = dispatcher.add_child(a, literal("2")).unwrap();
    dispatcher.add_child(two, literal("only").executes(2)).unwrap();
    let b = dispatcher.register(literal("b").executes(3)).unwrap();
    dispatcher.add_child(b, argument("n", ArgumentType::integer()).executes(4)).unwrap();
    dispatcher.register(literal("c").redirect(0)).unwrap();
    dispatcher.register(literal("d").redirect(a)).unwrap();
    let source = Source::new(0);
    assert_eq!(
        dispatcher.get_smart_usage(0, &source),
        vec![
            (a, "a (1|2)".to_string()),
            (b, "b [<n>]".to_string()),
            (dispatcher.find_node(&["c"]).unwrap(), "c ...".to_string()),
            (dispatcher.find_node(&["d"]).unwrap(), "d -> a".to_string()),
        ]
    );
    assert_eq!(
        dispatcher.get_smart_usage(a, &source),
        vec![(one, "1 [i|ii]".to_string()), (two, "2 only".to_string())]
    );
    assert_eq!(
        dispatcher.get_smart_usage(b, &source),
        vec![(dispatcher.find_node(&["b", "n"]).unwrap(), "[<n>]".to_string())]
    );
}

#[test]
fn completion_suggestions() {
    let mut dispatcher = CommandDispatcher::new();
    let foo = dispatcher.register(literal("foo")).unwrap();
    dispatcher.register(literal("Food")).unwrap();
    dispatcher.register(literal("bar")).unwrap();
    dispatcher.add_child(foo, argument("flag", ArgumentType::Bool).executes(1)).unwrap();
    dispatcher.add_child(foo, literal("fast").executes(2)).unwrap();
    let source = Source::new(0);
    let texts = |s: &Suggestions| s.suggestions.iter().map(Suggestion::text).collect::<Vec<_>>();

    let parse = dispatcher.parse(StringReader::new("fo"), &source);
    let found = dispatcher.get_completion_suggestions(&parse, &source);
    assert_eq!(found.range, StringRange { start: 0, end: 2 });
    assert_eq!(texts(&found), vec!["Food".to_string(), "foo".to_string()]);

    let parse = dispatcher.parse(StringReader::new("foo f"), &source);
    let found = dispatcher.get_completion_suggestions(&parse, &source);
    assert_eq!(found.range, StringRange { start: 4, end: 5 });
    assert_eq!(texts(&found), vec!["fast".to_string(), "false".to_string()]);

    let parse = dispatcher.parse(StringReader::new("foo "), &source);
    let found = dispatcher.get_completion_suggestions(&parse, &source);
    assert_eq!(
        texts(&found),
        vec!["fast".to_string(), "false".to_string(), "true".to_string()]
    );

    let parse = dispatcher.parse(StringReader::new("foo true"), &source);
    assert!(dispatcher.get_completion_suggestions(&parse, &source).is_empty());
    let found = dispatcher.get_completion_suggestions_with_cursor(&parse, 5, &source);
    assert_eq!(texts(&found), vec!["true".to_string()]);
    assert_eq!(found.range, StringRange { start: 4, end: 5 });
}

#[test]
fn providers_suggest_for_their_arguments() {
    let mut dispatcher = CommandDispatcher::new();
    let msg = dispatcher.register(literal("msg")).unwrap();
    let who = dispatcher
        .add_child(msg, argument("who", ArgumentType::Word).suggests(1).executes(1))
        .unwrap();
    dispatcher.add_child(msg, literal("all").executes(2)).unwrap();
    // A provider on a literal is not asked.
    dispatcher.add_child(msg, literal("admins").suggests(1)).unwrap();
    assert_eq!(dispatcher.node(who).unwrap().suggests, Some(1));
    let source = Source::new(0);
    let texts = |s: &Suggestions| s.suggestions.iter().map(Suggestion::text).collect::<Vec<_>>();

    let parse = dispatcher.parse(StringReader::new("msg a"), &source);
    let found = dispatcher.get_completion_suggestions(&parse, &source);
    assert_eq!(found.range, StringRange { start: 4, end: 5 });
    assert_eq!(
        texts(&found),
        vec!["admins".to_string(), "all".to_string(), "Alex".to_string(), "alexa".to_string()]
    );

    let request = dispatcher.suggestion_request(&parse, 5);
    assert_eq!(request.parent, msg);
    assert_eq!(request.input, chars("msg a"));
    assert_eq!(request.start, 4);
    let provided = dispatcher.ask_providers(&request, &source);
    assert_eq!(provided, vec![None, None, Some(vec![chars("Alex"), chars("alexa")])]);
    // What the input holds already is not suggested, and a value comes once.
    let given = vec![None, None, Some(vec![chars("a"), chars("all"), chars("ab"), chars("ab")])];
    let found = dispatcher.suggestions_for(&chars("msg a"), &request, &given);
    assert_eq!(texts(&found), vec!["admins".to_string(), "all".to_string(), "ab".to_string()]);
}

#[test]
fn suggestions_merge_widens_and_removes_doubles() {
    let command = chars("abcdef");
    let one = Suggestions {
        range: StringRange { start: 2, end: 4 },
        suggestions: vec![Suggestion { range: StringRange { start: 2, end: 4 }, text: chars("XY") }],
    };
    let two = Suggestions {
        range: StringRange { start: 1, end: 3 },
        suggestions: vec![
            Suggestion { range: StringRange { start: 1, end: 3 }, text: chars("bXY") },
            Suggestion { range: StringRange { start: 1, end: 3 }, text: chars("Q") },
        ],
    };
    assert_eq!(Suggestions::merge(&command, vec![]), Suggestions::none());
    assert_eq!(Suggestions::merge(&command, vec![one.clone_it()]), one);
    let merged = Suggestions::merge(&command, vec![one, two]);
    assert_eq!(merged.range, StringRange { start: 1, end: 4 });
    assert_eq!(
        merged.suggestions,
        vec![
            Suggestion { range: StringRange { start: 1, end: 4 }, text: chars("bXY") },
            Suggestion { range: StringRange { start: 1, end: 4 }, text: chars("bXYd") },
            Suggestion { range: StringRange { start: 1, end: 4 }, text: chars("Qd") },
        ]
    );
}

trait CloneIt {
    fn clone_it(&self) -> Self;
}

impl CloneIt for Suggestions {
    fn clone_it(&self) -> Suggestions {
        Suggestions { range: self.range, suggestions: self.suggestions.clone() }
    }
}

#[test]
fn string_reader_reads_tokens() {
    let mut reader = StringReader::new("12 -7 abc \"q \\\" z\" true 99999999999 x");
    assert_eq!(reader.read_int(), Ok(12));
    assert_eq!(reader.cursor(), 2);
    assert!(reader.expect(' ').is_ok());
    assert_eq!(reader.read_long(), Ok(-7));
    reader.skip();
    let word = reader.read_unquoted_token();
    assert_eq!(word, StringRange { start: 6, end: 9 });
    assert_eq!(reader.token_chars(word, false), chars("abc"));
    reader.skip();
    let (quoted, was_quoted) = reader.read_string_token().unwrap();
    assert!(was_quoted);
    assert_eq!(reader.token_chars(quoted, true), chars("q \" z"));
    assert_eq!(reader.read(), ' ');
    assert_eq!(reader.read_boolean(), Ok(true));
    reader.skip();
    let start = reader.cursor();
    assert_eq!(
        reader.read_int(),
        Err(CommandSyntaxError {
            kind: BuiltInError::ReaderInvalidInt {
                value: StringRange { start, end: start + 11 }
            },
            cursor: start
        })
    );
    assert_eq!(reader.cursor(), start);
    assert_eq!(reader.read_long(), Ok(99999999999));
    reader.skip();
    assert_eq!(reader.peek(), 'x');
    assert_eq!(
        reader.read_boolean().unwrap_err().kind,
        BuiltInError::ReaderInvalidBool { value: StringRange { start: 36, end: 37 } }
    );
    assert_eq!(reader.remaining_length(), 1);
    assert_eq!(reader.remaining(), "x");
    assert_eq!(reader.get_read().len(), 36);
    assert_eq!(reader.string().len(), 37);
    assert_eq!(reader.total_length(), 37);
    assert!(reader.can_read_length(1));
    assert!(!reader.can_read_length(2));
    assert_eq!(
        reader.expect('y').unwrap_err().kind,
        BuiltInError::ReaderExpectedSymbol { symbol: 'y' }
    );
    reader.set_cursor(1000);
    assert_eq!(reader.cursor(), 37);
    assert!(!reader.can_read());
    assert_eq!(reader.read_boolean().unwrap_err().kind, BuiltInError::ReaderExpectedBool);
}

#[test]
fn string_reader_quote_errors() {
    let mut reader = StringReader::new("\"abc");
    assert_eq!(
        reader.read_string_token(),
        Err(CommandSyntaxError { kind: BuiltInError::ReaderExpectedEndOfQuote, cursor: 4 })
    );
    let mut reader = StringReader::new("'a\\bc'");
    assert_eq!(
        reader.read_string_token(),
        Err(CommandSyntaxError {
            kind: BuiltInError::ReaderInvalidEscape { character: 'b' },
            cursor: 3
        })
    );
    let mut reader = StringReader::new("'a\\\\b' plain");
    assert_eq!(reader.read_string(), Ok("a\\b".to_string()));
    let mut reader = StringReader::new("'it\\'s' plain");
    assert_eq!(reader.read_string(), Ok("it's".to_string()));
    reader.skip();
    assert_eq!(reader.read_unquoted_string(), "plain");
    assert_eq!(reader.read_string(), Ok("".to_string()));
    let mut reader = StringReader::from_chars(chars("-"));
    assert_eq!(
        reader.read_int().unwrap_err().kind,
        BuiltInError::ReaderInvalidInt { value: StringRange { start: 0, end: 1 } }
    );
    assert_eq!(reader.clone().chars(), &chars("-"));
    assert!(StringReader::is_allowed_number('.'));
    assert!(!StringReader::is_allowed_number('+'));
    assert!(StringReader::is_allowed_in_unquoted_string('+'));
    assert!(StringReader::is_quoted_string_start('\''));
    assert!(StringReader::is_allowed_in_token(true, '-'));
}

#[test]
fn argument_types_parse() {
    let mut reader = StringReader::new("the rest of it");
    assert_eq!(
        ArgumentType::GreedyPhrase.parse(&mut reader),
        Ok(ArgumentValue::Text { range: StringRange { start: 0, end: 14 }, quoted: false })
    );
    assert_eq!(reader.cursor(), 14);
    let mut reader = StringReader::new("'a b' c");
    assert_eq!(
        ArgumentType::QuotablePhrase.parse(&mut reader),
        Ok(ArgumentValue::Text { range: StringRange { start: 1, end: 4 }, quoted: true })
    );
    let mut reader = StringReader::new("9000000000");
    assert_eq!(
        ArgumentType::Long { min: 0, max: 10 }.parse(&mut reader),
        Err(CommandSyntaxError {
            kind: BuiltInError::LongTooBig { found: 9000000000, max: 10 },
            cursor: 0
        })
    );
    let mut reader = StringReader::new("false");
    assert_eq!(ArgumentType::Bool.parse(&mut reader), Ok(ArgumentValue::Bool(false)));
    assert_eq!(ArgumentType::long(), ArgumentType::Long { min: i64::MIN, max: i64::MAX });
}

#[test]
fn error_excerpt_shows_the_place() {
    let input = chars("0123456789abcdef");
    let at = |cursor: usize| {
        let error = CommandSyntaxError { kind: BuiltInError::ReaderExpectedInt, cursor };
        error.context(&input).into_iter().collect::<String>()
    };
    assert_eq!(at(0), "<--[HERE]");
    assert_eq!(at(4), "0123<--[HERE]");
    assert_eq!(at(10), "0123456789<--[HERE]");
    assert_eq!(at(11), "...123456789a<--[HERE]");
    assert_eq!(at(100), "...6789abcdef<--[HERE]");
}

#[test]
fn string_range_operations() {
    let a = StringRange::between(2, 5);
    let b = StringRange::at(7);
    assert_eq!(StringRange::encompassing(&a, &b), StringRange { start: 2, end: 7 });
    assert!(b.is_empty());
    assert_eq!(a.length(), 3);
    assert_eq!(StringRange { start: 5, end: 2 }.length(), 0);
    assert_eq!(
        BuiltInError::ReaderExpectedInt.create_at(3),
        CommandSyntaxError { kind: BuiltInError::ReaderExpectedInt, cursor: 3 }
    );
}

#[test]
fn default_dispatcher_is_an_empty_tree() {
    let dispatcher = CommandDispatcher::default();
    assert_eq!(dispatcher.len(), 1);
    assert_eq!(dispatcher.root(), 0);
    assert!(dispatcher.node(0).unwrap().children.is_empty());
    assert!(dispatcher.node(1).is_none());
    let source = Source::new(0);
    assert_eq!(
        dispatcher.execute("anything", &source),
        Err(CommandSyntaxError { kind: BuiltInError::DispatcherUnknownCommand, cursor: 0 })
    );
}

#[test]
fn the_path_of_a_node_finds_the_node() {
    let mut dispatcher = CommandDispatcher::new();
    let tp = dispatcher.register(literal("tp").executes(1)).unwrap();
    let x = dispatcher.add_child(tp, argument("x", ArgumentType::integer())).unwrap();
    dispatcher.add_child(x, argument("y", ArgumentType::integer()).executes(2)).unwrap();
    let home = dispatcher.register(literal("home").executes(3)).unwrap();
    dispatcher.add_child(home, literal("again").redirect(0)).unwrap();
    dispatcher.add_child(tp, literal("again")).unwrap();
    for node in 0..dispatcher.len() {
        let path = dispatcher.get_path(node);
        let names: Vec<&str> = path.iter().map(String::as_str).collect();
        assert_eq!(dispatcher.find_node(&names), Some(node));
    }
}

use commander_core::cli::{parse, Cli, Cmd};
use commander_core::instance::Instance;
use commander_core::pattern::Pattern;
use commander_core::raw::Raw;
use commander_core::schema::{Application, Argument, ArgumentType, Command, Options};
use commander_core::tokenize::normalize;

fn s(x: &str) -> String {
    String::from(x)
}

fn words(xs: &[&str]) -> Vec<String> {
    xs.iter().map(|x| s(x)).collect()
}

fn arg(name: &str, ty: ArgumentType) -> Argument {
    Argument { name: s(name), ty }
}

fn opt(short: &str, long: &str, a: Option<Argument>) -> Options {
    Options { short: s(short), long: s(long), arg: a, desc: None }
}

fn app(cmds: Vec<Command>, opts: Vec<Options>, direct_args: Vec<Argument>) -> Application {
    let mut a = Application { name: s("pkg"), desc: s("a tool"), cmds, opts, direct_args };
    a.derive();
    a
}

fn rmdir_app() -> Application {
    let rmdir = Command {
        name: s("rmdir"),
        args: vec![arg("dir", ArgumentType::RequiredSingle), arg("others", ArgumentType::OptionalMultiple)],
        desc: Some(s("remove files")),
        opts: vec![opt("r", "recursive", None)],
    };
    app(vec![rmdir], vec![], vec![])
}

fn items(r: &Raw) -> Vec<String> {
    r.items().clone()
}

fn run(app: &Application, xs: &[&str]) -> Cli {
    parse(words(xs), app).ok().unwrap().unwrap()
}

#[test]
fn rmdir_binds_slots_and_flag() {
    let a = rmdir_app();
    let cli = run(&a, &["pkg", "rmdir", "/tmp/a", "/tmp/b", "/tmp/c", "-r"]);
    assert_eq!(cli.get_name(), "rmdir");
    let raws = cli.get_raws();
    assert_eq!(raws.len(), 2);
    assert_eq!(items(&raws[0]), words(&["/tmp/a"]));
    assert_eq!(items(&raws[1]), words(&["/tmp/b", "/tmp/c"]));
    assert!(cli.has("r"));
    assert!(cli.has("recursive"));
    assert!(items(&cli.get("r")).is_empty());
    assert!(items(&cli.get("recursive")).is_empty());
}

#[test]
fn unknown_words_without_direct_args_are_ignored() {
    let a = rmdir_app();
    let cli = run(&a, &["pkg", "foo", "bar"]);
    assert!(cli.cmd.is_none());
    assert_eq!(cli.get_name(), "");
    assert!(cli.get_raws().is_empty());
    assert!(cli.direct_args.is_empty());
}

#[test]
fn unknown_words_bind_direct_args() {
    let a = app(
        vec![],
        vec![],
        vec![arg("first", ArgumentType::RequiredSingle), arg("rest", ArgumentType::OptionalMultiple)],
    );
    let cli = run(&a, &["pkg", "foo", "bar"]);
    assert!(cli.cmd.is_none());
    assert_eq!(cli.direct_args.len(), 2);
    assert_eq!(items(&cli.direct_args[0]), words(&["foo"]));
    assert_eq!(items(&cli.direct_args[1]), words(&["bar"]));
}

#[test]
fn undeclared_short_flag_fails() {
    let a = rmdir_app();
    let e = parse(words(&["pkg", "-x"]), &a).err().unwrap();
    assert_eq!(e.name, "x");
    assert!(!e.long);
    assert_eq!(e.message(), "Unknown option: -x");
}

#[test]
fn undeclared_long_flag_fails() {
    let a = rmdir_app();
    let e = parse(words(&["pkg", "rmdir", "d", "--force"]), &a).err().unwrap();
    assert_eq!(e.name, "force");
    assert!(e.long);
    assert_eq!(e.message(), "Unknown option: --force");
}

#[test]
fn undeclared_inline_flag_fails() {
    let a = rmdir_app();
    let e = parse(words(&["pkg", "--depth=3"]), &a).err().unwrap();
    assert_eq!(e.message(), "Unknown option: --depth");
}

#[test]
fn undeclared_flag_in_cluster_fails() {
    let a = rmdir_app();
    let e = parse(words(&["pkg", "rmdir", "d", "-rq"]), &a).err().unwrap();
    assert_eq!(e.name, "q");
}

#[test]
fn program_name_alone_gives_no_result() {
    let a = rmdir_app();
    assert!(parse(words(&["pkg"]), &a).ok().unwrap().is_none());
    assert!(parse(vec![], &a).ok().unwrap().is_none());
}

#[test]
fn declared_flags_always_give_a_result() {
    let a = rmdir_app();
    assert!(parse(words(&["pkg", "-h"]), &a).ok().unwrap().is_some());
    assert!(parse(words(&["pkg", "--version"]), &a).ok().unwrap().is_some());
    assert!(parse(words(&["pkg", "rmdir", "-rh", "x"]), &a).ok().unwrap().is_some());
    assert!(parse(words(&["pkg", ""]), &a).ok().unwrap().is_some());
}

#[test]
fn global_option_reads_the_same_by_both_keys() {
    let a = app(vec![], vec![opt("o", "output", Some(arg("file", ArgumentType::RequiredSingle)))], vec![]);
    let cli = run(&a, &["pkg", "-o", "a.txt", "b.txt"]);
    assert_eq!(items(&cli.get("o")), words(&["a.txt"]));
    assert_eq!(items(&cli.get("output")), words(&["a.txt"]));
    let cli = run(&a, &["pkg", "--output", "c.txt"]);
    assert_eq!(items(&cli.get("o")), words(&["c.txt"]));
    assert_eq!(items(&cli.get("output")), words(&["c.txt"]));
}

fn quiet_app() -> Application {
    let build = Command {
        name: s("build"),
        args: vec![],
        desc: None,
        opts: vec![opt("s", "quiet", Some(arg("level", ArgumentType::OptionalSingle)))],
    };
    app(vec![build], vec![opt("q", "quiet", Some(arg("level", ArgumentType::OptionalSingle)))], vec![])
}

#[test]
fn command_option_shadows_global_option() {
    let a = quiet_app();
    let cli = run(&a, &["pkg", "build", "--quiet", "2"]);
    assert!(cli.cmd.as_ref().unwrap().has("quiet"));
    assert!(!cli.global_raws.contains_key("quiet"));
    assert_eq!(items(&cli.get("quiet")), words(&["2"]));
    assert_eq!(items(&cli.get("s")), words(&["2"]));
    assert!(!cli.has("q"));
}

#[test]
fn global_option_before_command_stays_global() {
    let a = quiet_app();
    let cli = run(&a, &["pkg", "--quiet", "1", "build"]);
    assert!(!cli.cmd.as_ref().unwrap().has("quiet"));
    assert_eq!(items(&cli.get("quiet")), words(&["1"]));
    assert_eq!(items(&cli.get("q")), words(&["1"]));
}

#[test]
fn trailing_multiple_takes_the_rest() {
    let args = vec![
        arg("a", ArgumentType::RequiredSingle),
        arg("b", ArgumentType::OptionalSingle),
        arg("c", ArgumentType::RequiredMultiple),
    ];
    let ins = Instance { name: s("cmd"), args: words(&["1", "2", "3", "4", "5"]) };
    let raws = Raw::divide_cmd(&ins, &args);
    assert_eq!(raws.len(), 3);
    assert_eq!(items(&raws[0]), words(&["1"]));
    assert_eq!(items(&raws[1]), words(&["2"]));
    assert_eq!(items(&raws[2]), words(&["3", "4", "5"]));
}

#[test]
fn optional_single_without_words_is_empty() {
    let args = vec![arg("a", ArgumentType::RequiredSingle), arg("b", ArgumentType::OptionalSingle)];
    let ins = Instance { name: s("cmd"), args: words(&["1"]) };
    let raws = Raw::divide_cmd(&ins, &args);
    assert_eq!(raws.len(), 2);
    assert_eq!(items(&raws[0]), words(&["1"]));
    assert!(items(&raws[1]).is_empty());
}

#[test]
fn option_slot_division() {
    let ins = Instance { name: s("o"), args: words(&["x", "y"]) };
    assert!(items(&Raw::divide_opt(&ins, &None)).is_empty());
    let single = Some(arg("v", ArgumentType::RequiredSingle));
    assert_eq!(items(&Raw::divide_opt(&ins, &single)), words(&["x"]));
    let multiple = Some(arg("v", ArgumentType::OptionalMultiple));
    assert_eq!(items(&Raw::divide_opt(&ins, &multiple)), words(&["x", "y"]));
}

#[test]
fn inline_values_are_split_and_deduplicated() {
    let a = app(vec![], vec![opt("d", "dirs", Some(arg("d", ArgumentType::OptionalMultiple)))], vec![]);
    let cli = run(&a, &["pkg", "--dirs=a a b  b c", "loose"]);
    assert_eq!(items(&cli.get("dirs")), words(&["a", "b", "b", "c"]));
    let ins = normalize(words(&["pkg", "--dirs=x y", "loose"]), &a).ok().unwrap();
    assert_eq!(
        ins,
        vec![Instance { name: s("dirs"), args: words(&["x", "y"]) }]
    );
}

#[test]
fn clusters_split_and_trailing_words_join_last_flag() {
    let a = app(vec![], vec![opt("a", "all", None), opt("f", "file", Some(arg("f", ArgumentType::RequiredSingle)))], vec![]);
    let ins = normalize(words(&["pkg", "-aaf", "x.txt"]), &a).ok().unwrap();
    assert_eq!(
        ins,
        vec![
            Instance { name: s("a"), args: vec![] },
            Instance { name: s("f"), args: words(&["x.txt"]) },
        ]
    );
}

#[test]
fn leading_words_form_an_anonymous_instance() {
    let a = rmdir_app();
    let ins = normalize(words(&["pkg", "one", "two", "rmdir", "d", "rmdir"]), &a).ok().unwrap();
    assert_eq!(
        ins,
        vec![
            Instance { name: s(""), args: words(&["one", "two"]) },
            Instance { name: s("rmdir"), args: words(&["d", "rmdir"]) },
        ]
    );
    let cli = Cli::from(&ins, &a).unwrap();
    assert_eq!(cli.get_name(), "rmdir");
    assert!(cli.direct_args.is_empty());
}

#[test]
fn no_instances_give_no_result() {
    let a = rmdir_app();
    assert!(Cli::from(&vec![], &a).is_none());
}

#[test]
fn cmd_from_finds_first_command() {
    let a = rmdir_app();
    let ins = vec![
        Instance { name: s("x"), args: vec![] },
        Instance { name: s("rmdir"), args: words(&["d"]) },
        Instance { name: s("recursive"), args: vec![] },
    ];
    let c = Cmd::from(&ins, &a.cmds).unwrap();
    assert_eq!(c.name, "rmdir");
    assert!(c.has("r"));
    assert!(c.has("recursive"));
    assert!(!c.has("h"));
    assert!(Cmd::from(&vec![Instance::new("other")], &a.cmds).is_none());
}

#[test]
fn derive_adds_help_and_version() {
    let a = rmdir_app();
    assert_eq!(a.opts.len(), 2);
    assert_eq!(a.opts[0].long, "help");
    assert_eq!(a.opts[0].short, "h");
    assert_eq!(a.opts[1].long, "version");
    assert_eq!(a.opts[1].short, "V");
    assert_eq!(a.opts[1].desc.as_deref(), Some("output the version number"));
    assert_eq!(a.cmds[0].opts.len(), 2);
    assert_eq!(a.cmds[0].opts[1].long, "help");
    assert_eq!(a.cmds[0].opts[1].desc.as_deref(), Some("output usage information"));
}

#[test]
fn contains_key_covers_global_and_command_options() {
    let a = rmdir_app();
    assert!(a.contains_key("h"));
    assert!(a.contains_key("version"));
    assert!(a.contains_key("recursive"));
    assert!(a.contains_key("r"));
    assert!(!a.contains_key("rmdir"));
    assert!(!a.contains_key("x"));
}

#[test]
fn get_or_and_get_or_else() {
    let a = rmdir_app();
    let cli = run(&a, &["pkg", "rmdir", "d", "-r"]);
    assert!(cli.get_or("recursive", false));
    assert!(!cli.get_or("help", false));
    assert!(cli.get_or_else("help", || true));
    let v: Vec<String> = cli.get_or("missing", vec![s("z")]);
    assert_eq!(v, words(&["z"]));
    let cli = run(&a, &["pkg", "rmdir", "d"]);
    assert!(!cli.get_or("r", false));
    assert!(items(&cli.get("r")).is_empty());
}

#[test]
fn raw_conversions() {
    let b: bool = Raw::new(vec![]).into();
    assert!(b);
    let b: bool = Raw::new(words(&["false"])).into();
    assert!(!b);
    let b: bool = Raw::new(words(&["yes"])).into();
    assert!(b);
    let v: Vec<String> = Raw::new(words(&["1", "2"])).into();
    assert_eq!(v, words(&["1", "2"]));
    assert_eq!(Raw::new(words(&["p", "q"])).first_word(), "p");
    assert_eq!(Raw::new(vec![]).first_word(), "");
}

#[test]
fn empty_cli_has_nothing() {
    let cli = Cli::empty();
    assert!(!cli.has("x"));
    assert!(items(&cli.get("x")).is_empty());
    assert_eq!(cli.get_name(), "");
}

#[test]
fn token_shapes() {
    assert!(matches!(Pattern::match_str("-rf"), Pattern::Short(ref f) if f == "rf"));
    assert!(matches!(Pattern::match_str("--name"), Pattern::Long(ref n) if n == "name"));
    assert!(matches!(Pattern::match_str("--a-b_c"), Pattern::Long(ref n) if n == "a-b_c"));
    assert!(matches!(Pattern::match_str("--k=v w"), Pattern::Stmt(ref n, ref v) if n == "k" && v == "v w"));
    assert!(matches!(Pattern::match_str("--k="), Pattern::Stmt(ref n, ref v) if n == "k" && v.is_empty()));
    assert!(matches!(Pattern::match_str("word"), Pattern::Word));
    assert!(matches!(Pattern::match_str(""), Pattern::Word));
    assert!(matches!(Pattern::match_str("-"), Pattern::Other));
    assert!(matches!(Pattern::match_str("--"), Pattern::Other));
    assert!(matches!(Pattern::match_str("-1"), Pattern::Other));
    assert!(matches!(Pattern::match_str("--=x"), Pattern::Other));
}

#[test]
fn instance_helpers() {
    assert!(Instance::empty().is_empty());
    assert!(!Instance::new("x").is_empty());
    assert_eq!(Instance::new("x").name, "x");
}

#[test]
fn other_shapes_are_plain_words() {
    let a = rmdir_app();
    let ins = normalize(words(&["pkg", "rmdir", "-1", "-"]), &a).ok().unwrap();
    assert_eq!(ins, vec![Instance { name: s("rmdir"), args: words(&["-1", "-"]) }]);
}

#[test]
fn integer_conversions() {
    assert_eq!(Raw::new(words(&["42", "x"])).to_int(), Some(42));
    assert_eq!(Raw::new(words(&["-17"])).to_int(), Some(-17));
    assert_eq!(Raw::new(words(&["+8"])).to_int(), Some(8));
    assert_eq!(Raw::new(words(&["-9223372036854775808"])).to_int(), Some(i64::MIN));
    assert_eq!(Raw::new(words(&["9223372036854775807"])).to_int(), Some(i64::MAX));
    assert_eq!(Raw::new(words(&["9223372036854775808"])).to_int(), None);
    assert_eq!(Raw::new(words(&["123456789012345678901234567890"])).to_int(), None);
    assert_eq!(Raw::new(words(&["1.5"])).to_int(), None);
    assert_eq!(Raw::new(words(&["-"])).to_int(), None);
    assert_eq!(Raw::new(words(&[""])).to_int(), None);
    assert_eq!(Raw::new(vec![]).to_int(), None);
    assert_eq!(Raw::new(words(&["1", "-2", "30"])).to_ints(), Some(vec![1, -2, 30]));
    assert_eq!(Raw::new(words(&["1", "a"])).to_ints(), None);
    assert_eq!(Raw::new(vec![]).to_ints(), Some(vec![]));
}

#[test]
fn option_value_as_integer() {
    let a = app(vec![], vec![opt("n", "count", Some(arg("n", ArgumentType::RequiredSingle)))], vec![]);
    let cli = run(&a, &["pkg", "--count=12"]);
    assert_eq!(cli.get("n").to_int(), Some(12));
    assert_eq!(cli.get("count").to_int(), Some(12));
}

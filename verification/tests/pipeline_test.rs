use braincrap_rs::parser::{
    path_join, path_parent, BraincrapCommand, Parser, SourceFiles, MAX_EXPANSION_DEPTH,
};
use braincrap_rs::tokenizer::{BraincrapToken, Lexer};
use braincrap_rs::transpiler::{are_braces_balanced, Transpiler, TranspilerArguments};

#[test]
fn test_run_length_pipeline() {
    let mut lexer = Lexer::new("+++--<<.,".to_string());
    let tokens = lexer.tokenize();
    assert_eq!(
        tokens,
        vec![
            BraincrapToken::Plus(3),
            BraincrapToken::Minus(2),
            BraincrapToken::Left(2),
            BraincrapToken::Dot(1),
            BraincrapToken::Comma(1),
        ]
    );

    let mut parser = Parser::new(tokens, ".".to_string(), SourceFiles::new());
    let commands = parser.parse();

    let mut transpiler = Transpiler::new();
    let bf_result = transpiler.transpile(commands.clone(), &TranspilerArguments::Brainfuck);
    assert_eq!(bf_result, "+++--<<.,");

    let mut c_transpiler = Transpiler::new();
    let c_result = c_transpiler.transpile(commands, &TranspilerArguments::C);
    assert_eq!(
        c_result,
        "(*ptr += 3);(*ptr -= 2);(ptr -= 2);putchar(*ptr);(*ptr = getchar());"
    );
}

#[test]
fn test_macro_pipeline() {
    let mut lexer = Lexer::new("#m ++\nm".to_string());
    let tokens = lexer.tokenize();

    let mut parser = Parser::new(tokens, ".".to_string(), SourceFiles::new());
    let commands = parser.parse();
    assert_eq!(
        commands,
        vec![
            BraincrapCommand::DefineMacro {
                name: 'm',
                tokens: vec![BraincrapToken::Plus(2)],
                code: vec![BraincrapCommand::Addition(2)],
            },
            BraincrapCommand::RunMacro { name: 'm' },
        ]
    );

    let mut transpiler = Transpiler::new();
    let bf_result = transpiler.transpile(commands, &TranspilerArguments::Brainfuck);
    assert_eq!(bf_result, "++");
}

#[test]
fn test_import_with_file_present() {
    let mut files = SourceFiles::new();
    files.insert("./lib.bcf".to_string(), "+-".to_string());

    let mut lexer = Lexer::new("$lib.bcf".to_string());
    let tokens = lexer.tokenize();
    let mut parser = Parser::new(tokens, ".".to_string(), files);
    let commands = parser.parse();

    assert_eq!(
        commands,
        vec![BraincrapCommand::Import {
            file: "lib.bcf".to_string(),
            tokens: vec![BraincrapToken::Plus(1), BraincrapToken::Minus(1)],
            code: vec![
                BraincrapCommand::Addition(1),
                BraincrapCommand::Substraction(1),
            ],
        }]
    );
    assert_eq!(parser.missing_imports().len(), 0);

    let mut transpiler = Transpiler::new();
    let bf_result = transpiler.transpile(commands, &TranspilerArguments::Brainfuck);
    assert_eq!(bf_result, "+-");
}

#[test]
fn test_missing_import_is_recorded() {
    let mut lexer = Lexer::new("$file.bcf".to_string());
    let tokens = lexer.tokenize();
    let mut parser = Parser::new(tokens, ".".to_string(), SourceFiles::new());
    let commands = parser.parse();

    assert_eq!(parser.missing_imports(), &vec!["./file.bcf".to_string()]);

    let mut transpiler = Transpiler::new();
    let bf_result = transpiler.transpile(commands, &TranspilerArguments::Brainfuck);
    assert_eq!(bf_result, "");
}

#[test]
fn test_transitive_import_resolves_from_importing_file() {
    let mut files = SourceFiles::new();
    files.insert("dir/a.bcf".to_string(), "$b.bcf".to_string());
    files.insert("dir/b.bcf".to_string(), ">".to_string());

    let mut lexer = Lexer::new("$a.bcf".to_string());
    let tokens = lexer.tokenize();
    let mut parser = Parser::new(tokens, "dir".to_string(), files);
    let commands = parser.parse();
    assert_eq!(parser.missing_imports().len(), 0);

    let mut transpiler = Transpiler::new();
    let bf_result = transpiler.transpile(commands, &TranspilerArguments::Brainfuck);
    assert_eq!(bf_result, ">");
}

#[test]
fn test_import_cycle_is_bounded() {
    let mut files = SourceFiles::new();
    files.insert("./a.bcf".to_string(), "$a.bcf +".to_string());

    let mut lexer = Lexer::new("$a.bcf".to_string());
    let tokens = lexer.tokenize();
    let mut parser = Parser::new(tokens, ".".to_string(), files);
    let commands = parser.parse();

    let mut transpiler = Transpiler::new();
    let bf_result = transpiler.transpile(commands, &TranspilerArguments::Brainfuck);
    assert_eq!(bf_result, "+".repeat(MAX_EXPANSION_DEPTH - 1));
}

#[test]
fn test_later_file_entry_replaces_earlier() {
    let mut files = SourceFiles::new();
    files.insert("./x.bcf".to_string(), "+".to_string());
    files.insert("./x.bcf".to_string(), "-".to_string());

    let mut lexer = Lexer::new("$x.bcf".to_string());
    let tokens = lexer.tokenize();
    let mut parser = Parser::new(tokens, ".".to_string(), files);
    let commands = parser.parse();

    let mut transpiler = Transpiler::new();
    let bf_result = transpiler.transpile(commands, &TranspilerArguments::Brainfuck);
    assert_eq!(bf_result, "-");
}

#[test]
fn test_macro_body_may_import() {
    let mut files = SourceFiles::new();
    files.insert("./lib.bcf".to_string(), "+".to_string());

    let mut lexer = Lexer::new("#m $lib.bcf\nm".to_string());
    let tokens = lexer.tokenize();
    let mut parser = Parser::new(tokens, ".".to_string(), files);
    let commands = parser.parse();

    let mut transpiler = Transpiler::new();
    let bf_result = transpiler.transpile(commands, &TranspilerArguments::Brainfuck);
    assert_eq!(bf_result, "+");
}

#[test]
fn test_c_backend_counting_loops() {
    let mut transpiler = Transpiler::new();
    let out3 = transpiler.transpile(
        vec![BraincrapCommand::Output(3)],
        &TranspilerArguments::C,
    );
    assert_eq!(out3, "for(int i=0;i<3;i++){putchar(*ptr);}");

    let out2 = transpiler.transpile(
        vec![BraincrapCommand::Output(2)],
        &TranspilerArguments::C,
    );
    assert_eq!(out2, "putchar(*ptr);putchar(*ptr);");

    let in2 = transpiler.transpile(
        vec![BraincrapCommand::Input(2)],
        &TranspilerArguments::C,
    );
    assert_eq!(in2, "for(int i=0;i<2;i++){(*ptr = getchar());}");

    let in1 = transpiler.transpile(
        vec![BraincrapCommand::Input(1)],
        &TranspilerArguments::C,
    );
    assert_eq!(in1, "(*ptr = getchar());");
}

#[test]
fn test_c_backend_multi_digit_counts() {
    let mut transpiler = Transpiler::new();
    let add = transpiler.transpile(
        vec![BraincrapCommand::Addition(12)],
        &TranspilerArguments::C,
    );
    assert_eq!(add, "(*ptr += 12);");

    let mv = transpiler.transpile(
        vec![BraincrapCommand::MoveRight(205)],
        &TranspilerArguments::C,
    );
    assert_eq!(mv, "(ptr += 205);");

    let mut bf_transpiler = Transpiler::new();
    let bf = bf_transpiler.transpile(
        vec![BraincrapCommand::Addition(12)],
        &TranspilerArguments::Brainfuck,
    );
    assert_eq!(bf, "++++++++++++");
}

#[test]
fn test_undefined_macro_leaves_surroundings_alone() {
    let commands = vec![
        BraincrapCommand::Addition(1),
        BraincrapCommand::RunMacro { name: 'z' },
        BraincrapCommand::Substraction(1),
    ];
    let mut transpiler = Transpiler::new();
    let bf_result = transpiler.transpile(commands.clone(), &TranspilerArguments::Brainfuck);
    let c_result = transpiler.transpile(commands, &TranspilerArguments::C);
    assert_eq!(bf_result, "+-");
    assert_eq!(c_result, "(*ptr += 1);(*ptr -= 1);");
}

#[test]
fn test_brace_balance() {
    assert!(are_braces_balanced(""));
    assert!(are_braces_balanced("[[]]"));
    assert!(are_braces_balanced("+[-]"));
    assert!(!are_braces_balanced("]["));
    assert!(!are_braces_balanced("["));
    assert!(!are_braces_balanced("]"));
}

#[test]
fn test_whitespace_ends_import_filename() {
    let mut lexer = Lexer::new("$ab cd".to_string());
    let tokens = lexer.tokenize();
    assert_eq!(
        tokens,
        vec![
            BraincrapToken::Dollar,
            BraincrapToken::String("ab".to_string()),
            BraincrapToken::Char('c'),
            BraincrapToken::Char('d'),
        ]
    );
}

#[test]
fn test_path_helpers() {
    assert_eq!(path_join("a/b", "c.bcf"), "a/b/c.bcf");
    assert_eq!(path_join("", "c.bcf"), "c.bcf");
    assert_eq!(path_join("a/b", "/abs.bcf"), "/abs.bcf");
    assert_eq!(path_parent("a/b/c.bcf"), "a/b");
    assert_eq!(path_parent("c.bcf"), "");
}

#[test]
fn test_absolute_import_ignores_working_directory() {
    let mut files = SourceFiles::new();
    files.insert("/lib/x.bcf".to_string(), "+".to_string());

    let mut lexer = Lexer::new("$/lib/x.bcf".to_string());
    let tokens = lexer.tokenize();
    let mut parser = Parser::new(tokens, "dir".to_string(), files);
    let commands = parser.parse();
    assert_eq!(parser.missing_imports().len(), 0);

    let mut transpiler = Transpiler::new();
    let bf_result = transpiler.transpile(commands, &TranspilerArguments::Brainfuck);
    assert_eq!(bf_result, "+");
}

#[test]
fn test_import_marker_alone() {
    let mut lexer = Lexer::new("$".to_string());
    let tokens = lexer.tokenize();
    assert_eq!(
        tokens,
        vec![BraincrapToken::Dollar, BraincrapToken::String(String::new())]
    );
}

#[test]
fn test_comment_runs_to_end_of_input() {
    let mut lexer = Lexer::new("; no newline after this".to_string());
    let tokens = lexer.tokenize();
    assert_eq!(tokens, Vec::<BraincrapToken>::new());
}

#[test]
fn test_macro_marker_at_end_of_input() {
    let mut lexer = Lexer::new("#".to_string());
    let tokens = lexer.tokenize();
    assert_eq!(
        tokens,
        vec![
            BraincrapToken::Hash,
            BraincrapToken::Char('\0'),
            BraincrapToken::String(String::new()),
        ]
    );
}

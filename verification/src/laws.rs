//! Properties that relate the pipeline's stages, stated over the
//! mathematical models ([`spec_tokenize`], [`spec_parse`],
//! [`spec_generate`]) and proved once and for all.

use crate::parser::{spec_parse, spec_parse_from, SpecCommand};
use crate::tokenizer::{
    char_at, is_illegal_name, lemma_line_end_is, lemma_run_end_is, run_token, spec_tokenize,
    spec_tokenize_from, SpecToken,
};
use crate::transpiler::{
    lemma_generate_append, lemma_generate_define, lemma_generate_import, lemma_generate_primitive,
    lemma_generate_run, spec_generate, str_repeat, TranspilerArguments,
};
use vstd::prelude::*;

verus! {

/// The six operator characters that the lexer run-length compresses.
pub open spec fn is_run_operator(c: char) -> bool {
    c == '+' || c == '-' || c == '<' || c == '>' || c == '.' || c == ','
}

/// `n` copies of one character: each position holds that character.
pub proof fn lemma_char_repeat(c: char, n: nat)
    ensures
        str_repeat(seq![c], n).len() == n,
        forall|k: int| 0 <= k < n ==> str_repeat(seq![c], n)[k] == c,
    decreases n,
{
    if n > 0 {
        lemma_char_repeat(c, (n - 1) as nat);
    }
}

/// Lexing a run of one repeated operator character gives exactly one
/// run-length token carrying the run's length.
pub proof fn lemma_tokenize_run(c: char, n: nat)
    requires
        is_run_operator(c),
        n >= 1,
    ensures
        spec_tokenize(str_repeat(seq![c], n)) == seq![run_token(c, n)],
{
    let src = str_repeat(seq![c], n);
    lemma_char_repeat(c, n);
    lemma_run_end_is(src, 0, n as int, c);
    assert(spec_tokenize_from(src, n as int) =~= Seq::<SpecToken>::empty());
    assert(spec_tokenize(src) =~= seq![run_token(c, n)]);
}

/// Lexing then generating round-trips: a run of `n >= 1` copies of an
/// operator character, lexed, parsed and generated for the tape-language
/// backend, emits exactly those `n` characters again and leaves the macro
/// registry untouched.
pub proof fn lemma_run_length_round_trip(
    c: char,
    n: nat,
    pwd: Seq<char>,
    files: Map<Seq<char>, Seq<char>>,
    depth: nat,
    macros: Map<char, Seq<char>>,
)
    requires
        is_run_operator(c),
        n >= 1,
        depth >= 1,
    ensures
        ({
            let src = str_repeat(seq![c], n);
            let cmds = spec_parse(spec_tokenize(src), pwd, files, depth).0;
            spec_generate(TranspilerArguments::Brainfuck, cmds, macros) == (src, macros)
        }),
{
    let src = str_repeat(seq![c], n);
    lemma_tokenize_run(c, n);
    let toks = seq![run_token(c, n)];
    let parsed = spec_parse(toks, pwd, files, depth);
    let cmd: SpecCommand = if c == '+' {
        SpecCommand::Addition(n)
    } else if c == '-' {
        SpecCommand::Substraction(n)
    } else if c == '<' {
        SpecCommand::MoveLeft(n)
    } else if c == '>' {
        SpecCommand::MoveRight(n)
    } else if c == '.' {
        SpecCommand::Output(n)
    } else {
        SpecCommand::Input(n)
    };
    assert(spec_parse_from(toks, 1, pwd, files, depth) == (
        Seq::<SpecCommand>::empty(),
        Seq::<Seq<char>>::empty(),
    ));
    assert(parsed.0 =~= seq![cmd]);
    lemma_generate_primitive(TranspilerArguments::Brainfuck, cmd, macros);
    lemma_char_repeat(c, n);
    proof_strlit_ops();
    assert(spec_generate(TranspilerArguments::Brainfuck, seq![cmd], macros).0 =~= src);
}

/// The views of the one-character operator string literals.
proof fn proof_strlit_ops()
    ensures
        "+"@ == seq!['+'],
        "-"@ == seq!['-'],
        "<"@ == seq!['<'],
        ">"@ == seq!['>'],
        "."@ == seq!['.'],
        ","@ == seq![','],
{
    reveal_strlit("+");
    reveal_strlit("-");
    reveal_strlit("<");
    reveal_strlit(">");
    reveal_strlit(".");
    reveal_strlit(",");
    assert("+"@ =~= seq!['+']);
    assert("-"@ =~= seq!['-']);
    assert("<"@ =~= seq!['<']);
    assert(">"@ =~= seq!['>']);
    assert("."@ =~= seq!['.']);
    assert(","@ =~= seq![',']);
}

/// The last definition wins: whatever commands came before — including
/// earlier definitions of the same name and invocations between them — an
/// invocation placed right after a definition of `name` emits exactly that
/// definition's expansion, for either backend.
pub proof fn lemma_last_definition_wins(
    args: TranspilerArguments,
    pre: Seq<SpecCommand>,
    name: char,
    toks: Seq<SpecToken>,
    body: Seq<SpecCommand>,
    macros: Map<char, Seq<char>>,
)
    ensures
        ({
            let before = spec_generate(args, pre, macros);
            let def = spec_generate(args, body, before.1);
            let whole = spec_generate(
                args,
                pre + seq![
                    SpecCommand::DefineMacro { name, tokens: toks, code: body },
                    SpecCommand::RunMacro { name },
                ],
                macros,
            );
            &&& whole.0 == before.0 + def.0
            &&& whole.1 == def.1.insert(name, def.0)
        }),
{
    let before = spec_generate(args, pre, macros);
    let def = spec_generate(args, body, before.1);
    let define = SpecCommand::DefineMacro { name, tokens: toks, code: body };
    let run = SpecCommand::RunMacro { name };
    let tail = seq![define, run];
    lemma_generate_append(args, pre, tail, macros);
    assert(tail.subrange(1, 2) =~= seq![run]);
    let stored = def.1.insert(name, def.0);
    lemma_generate_run(args, name, stored);
    assert(spec_generate(args, tail, before.1).0 =~= def.0);
}

/// Invoking an undefined macro emits nothing and leaves the generation of
/// everything after it unchanged, for either backend.
pub proof fn lemma_undefined_macro_is_silent(
    args: TranspilerArguments,
    name: char,
    rest: Seq<SpecCommand>,
    macros: Map<char, Seq<char>>,
)
    requires
        !macros.contains_key(name),
    ensures
        spec_generate(args, seq![SpecCommand::RunMacro { name }] + rest, macros) == spec_generate(
            args,
            rest,
            macros,
        ),
{
    let run = SpecCommand::RunMacro { name };
    lemma_generate_append(args, seq![run], rest, macros);
    lemma_generate_run(args, name, macros);
    assert(Seq::<char>::empty() + spec_generate(args, rest, macros).0 =~= spec_generate(
        args,
        rest,
        macros,
    ).0);
}

/// Import expansion is textual inlining: generating an import node followed
/// by anything is byte-for-byte generating its body at that position, for
/// either backend.
pub proof fn lemma_import_is_inlining(
    args: TranspilerArguments,
    file: Seq<char>,
    toks: Seq<SpecToken>,
    code: Seq<SpecCommand>,
    rest: Seq<SpecCommand>,
    macros: Map<char, Seq<char>>,
)
    ensures
        spec_generate(
            args,
            seq![SpecCommand::Import { file, tokens: toks, code }] + rest,
            macros,
        ) == spec_generate(args, code + rest, macros),
{
    let import = SpecCommand::Import { file, tokens: toks, code };
    lemma_generate_append(args, seq![import], rest, macros);
    lemma_generate_import(args, file, toks, code, macros);
    lemma_generate_append(args, code, rest, macros);
}

/// An illegal macro name falls back to `'e'` rather than failing: lexing
/// `#` followed by an illegal name character, a separator and a
/// newline-free body gives the marker triple with name `'e'`; parsing it
/// gives one macro definition under `'e'`; and generating that definition
/// leaves `'e'` defined in the registry, for either backend.
pub proof fn lemma_illegal_name_gets_fallback(
    args: TranspilerArguments,
    c: char,
    sep: char,
    body: Seq<char>,
    pwd: Seq<char>,
    files: Map<Seq<char>, Seq<char>>,
    depth: nat,
    macros: Map<char, Seq<char>>,
)
    requires
        is_illegal_name(c),
        forall|k: int| 0 <= k < body.len() ==> body[k] != '\n',
        depth >= 1,
    ensures
        ({
            let src = seq!['#', c, sep] + body;
            let parsed = spec_parse(spec_tokenize(src), pwd, files, depth).0;
            &&& spec_tokenize(src) == seq![
                SpecToken::Hash,
                SpecToken::Name('e'),
                SpecToken::Text(body),
            ]
            &&& parsed == seq![
                SpecCommand::DefineMacro {
                    name: 'e',
                    tokens: spec_tokenize(body),
                    code: spec_parse(spec_tokenize(body), pwd, files, (depth - 1) as nat).0,
                },
            ]
            &&& spec_generate(args, parsed, macros).1.contains_key('e')
        }),
{
    let src = seq!['#', c, sep] + body;
    assert(src[0] == '#');
    assert(char_at(src, 1) == c);
    assert(forall|k: int| 3 <= k < src.len() ==> src[k] != '\n');
    lemma_line_end_is(src, 3, src.len() as int);
    if body.len() > 0 {
        assert(src.subrange(3, src.len() as int) =~= body);
    } else {
        assert(Seq::<char>::empty() =~= body);
    }
    assert(spec_tokenize_from(src, src.len() as int) =~= Seq::<SpecToken>::empty());
    assert(spec_tokenize(src) =~= seq![
        SpecToken::Hash,
        SpecToken::Name('e'),
        SpecToken::Text(body),
    ]);
    let toks = spec_tokenize(src);
    let sub = spec_parse(spec_tokenize(body), pwd, files, (depth - 1) as nat);
    let define = SpecCommand::DefineMacro {
        name: 'e',
        tokens: spec_tokenize(body),
        code: sub.0,
    };
    let parsed = spec_parse(toks, pwd, files, depth).0;
    assert(spec_parse_from(toks, 3, pwd, files, depth) == (
        Seq::<SpecCommand>::empty(),
        Seq::<Seq<char>>::empty(),
    ));
    assert(parsed =~= seq![define]);
    lemma_generate_define(args, 'e', spec_tokenize(body), sub.0, macros);
}

} // verus!

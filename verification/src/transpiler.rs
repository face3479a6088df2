//! Code generation: walks a command sequence and produces the output text
//! for one of two backends.
//!
//! The tape-language backend expands run-length counts by literal repetition
//! of the operator character. The C-like backend emits one statement per
//! primitive, switching to a bounded counting loop when an output or input
//! count reaches a small threshold. Both backends share the same macro
//! registry semantics: a macro definition generates its body (against the
//! current registry), stores the result under the macro's name — a
//! redefinition replaces the earlier entry — and emits nothing; an
//! invocation emits the stored text, or nothing for an undefined name; an
//! import emits its body's generation inline.
//!
//! The mathematical model is [`spec_generate`]; [`Transpiler::transpile`] is
//! proved to produce exactly its value.

use crate::parser::{cmd_view, cmds_view, lemma_cmds_view_push, BraincrapCommand, SpecCommand};
use crate::tokenizer::{tokens_view, SpecToken};
use vstd::prelude::*;
use vstd::string::{StrSliceExecFns, StringExecFns};

verus! {

/// The backend to generate for.
#[derive(Debug)]
pub enum TranspilerArguments {
    C,
    Brainfuck,
}

/// `n` copies of `s`, concatenated.
pub open spec fn str_repeat(s: Seq<char>, n: nat) -> Seq<char>
    decreases n,
{
    if n == 0 {
        Seq::empty()
    } else {
        str_repeat(s, (n - 1) as nat) + s
    }
}

/// The decimal digit character for `d < 10`.
pub open spec fn spec_digit(d: nat) -> char {
    if d == 0 {
        '0'
    } else if d == 1 {
        '1'
    } else if d == 2 {
        '2'
    } else if d == 3 {
        '3'
    } else if d == 4 {
        '4'
    } else if d == 5 {
        '5'
    } else if d == 6 {
        '6'
    } else if d == 7 {
        '7'
    } else if d == 8 {
        '8'
    } else {
        '9'
    }
}

/// The decimal numeral for `n`, most significant digit first.
pub open spec fn spec_decimal(n: nat) -> Seq<char>
    decreases n,
{
    if n < 10 {
        seq![spec_digit(n)]
    } else {
        spec_decimal(n / 10) + seq![spec_digit(n % 10)]
    }
}

/// What the tape-language backend emits for one primitive command: the
/// operator character repeated by the run-length count.
pub open spec fn bf_primitive(c: SpecCommand) -> Seq<char> {
    match c {
        SpecCommand::Addition(n) => str_repeat("+"@, n),
        SpecCommand::Substraction(n) => str_repeat("-"@, n),
        SpecCommand::MoveLeft(n) => str_repeat("<"@, n),
        SpecCommand::MoveRight(n) => str_repeat(">"@, n),
        SpecCommand::OpenLoop => "["@,
        SpecCommand::CloseLoop => "]"@,
        SpecCommand::Output(n) => str_repeat("."@, n),
        SpecCommand::Input(n) => str_repeat(","@, n),
        _ => Seq::empty(),
    }
}

/// What the C-like backend emits for one primitive command: a statement on
/// the tape pointer. An output count of 3 or more, or an input count of 2 or
/// more, becomes a bounded counting loop instead of literal repetition.
pub open spec fn c_primitive(c: SpecCommand) -> Seq<char> {
    match c {
        SpecCommand::Addition(n) => "(*ptr += "@ + spec_decimal(n) + ");"@,
        SpecCommand::Substraction(n) => "(*ptr -= "@ + spec_decimal(n) + ");"@,
        SpecCommand::MoveLeft(n) => "(ptr -= "@ + spec_decimal(n) + ");"@,
        SpecCommand::MoveRight(n) => "(ptr += "@ + spec_decimal(n) + ");"@,
        SpecCommand::OpenLoop => "while(*ptr != 0){"@,
        SpecCommand::CloseLoop => "}"@,
        SpecCommand::Output(n) => if n >= 3 {
            "for(int i=0;i<"@ + spec_decimal(n) + ";i++){putchar(*ptr);}"@
        } else {
            str_repeat("putchar(*ptr);"@, n)
        },
        SpecCommand::Input(n) => if n >= 2 {
            "for(int i=0;i<"@ + spec_decimal(n) + ";i++){(*ptr = getchar());}"@
        } else {
            str_repeat("(*ptr = getchar());"@, n)
        },
        _ => Seq::empty(),
    }
}

/// What the chosen backend emits for one primitive command.
pub open spec fn primitive_code(args: TranspilerArguments, c: SpecCommand) -> Seq<char> {
    match args {
        TranspilerArguments::Brainfuck => bf_primitive(c),
        TranspilerArguments::C => c_primitive(c),
    }
}

/// Generation of a command sequence against a macro registry, for the
/// chosen backend. Returns the output text and the registry afterwards.
///
/// A macro definition generates its body against the current registry,
/// stores the result under its name (a redefinition replaces the earlier
/// entry: the last write wins), and emits nothing. An invocation emits the
/// stored text, or nothing when the name is undefined. An import emits its
/// body's generation at its position. The registry threads left to right
/// through every nested body.
pub open spec fn spec_generate(
    args: TranspilerArguments,
    cmds: Seq<SpecCommand>,
    macros: Map<char, Seq<char>>,
) -> (Seq<char>, Map<char, Seq<char>>)
    decreases cmds,
{
    if cmds.len() == 0 {
        (Seq::empty(), macros)
    } else {
        let rest_cmds = cmds.subrange(1, cmds.len() as int);
        match cmds[0] {
            SpecCommand::DefineMacro { name, code, .. } => {
                let body = spec_generate(args, code, macros);
                let rest = spec_generate(args, rest_cmds, body.1.insert(name, body.0));
                (rest.0, rest.1)
            },
            SpecCommand::RunMacro { name } => {
                let expansion = if macros.contains_key(name) {
                    macros[name]
                } else {
                    Seq::empty()
                };
                let rest = spec_generate(args, rest_cmds, macros);
                (expansion + rest.0, rest.1)
            },
            SpecCommand::Import { code, .. } => {
                let body = spec_generate(args, code, macros);
                let rest = spec_generate(args, rest_cmds, body.1);
                (body.0 + rest.0, rest.1)
            },
            _ => {
                let rest = spec_generate(args, rest_cmds, macros);
                (primitive_code(args, cmds[0]) + rest.0, rest.1)
            },
        }
    }
}

/// Whether every `]` in `s` closes an earlier `[`, with none left open at
/// the end, given `open` brackets already open before position `i`.
pub open spec fn balanced_from(s: Seq<char>, i: int, open: int) -> bool
    decreases s.len() - i,
{
    if i < 0 || i >= s.len() {
        open == 0
    } else if s[i] == '[' {
        balanced_from(s, i + 1, open + 1)
    } else if s[i] == ']' {
        open > 0 && balanced_from(s, i + 1, open - 1)
    } else {
        balanced_from(s, i + 1, open)
    }
}

/// Whether the brackets of `s` are balanced.
pub open spec fn balanced(s: Seq<char>) -> bool {
    balanced_from(s, 0, 0)
}

/// Whether every `[` in `code` has a matching `]`. A generated tape-language
/// program that fails this check cannot be well-formed; the caller may
/// report it as a diagnostic.
pub fn are_braces_balanced(code: &str) -> (r: bool)
    ensures
        r == balanced(code@),
{
    let n = code.unicode_len();
    let mut stack: Vec<char> = Vec::new();
    let mut i: usize = 0;
    while i < n
        invariant
            i <= n,
            n as int == code@.len(),
            balanced(code@) <==> balanced_from(code@, i as int, stack@.len() as int),
        decreases n - i,
    {
        let c = code.get_char(i);
        if c == '[' {
            stack.push(c);
        } else if c == ']' {
            if stack.pop().is_none() {
                return false;
            }
        }
        i = i + 1;
    }
    stack.len() == 0
}

/// `n` copies of `piece`, concatenated.
fn repeat_str(piece: &str, count: usize) -> (r: String)
    ensures
        r@ == str_repeat(piece@, count as nat),
{
    let mut r = String::new();
    let mut i: usize = 0;
    while i < count
        invariant
            i <= count,
            r@ == str_repeat(piece@, i as nat),
        decreases count - i,
    {
        r.append(piece);
        i = i + 1;
    }
    r
}

/// The one-character string for the decimal digit `d`.
fn digit_str(d: usize) -> (r: &'static str)
    requires
        d < 10,
    ensures
        r@ == seq![spec_digit(d as nat)],
{
    proof {
        reveal_strlit("0");
        reveal_strlit("1");
        reveal_strlit("2");
        reveal_strlit("3");
        reveal_strlit("4");
        reveal_strlit("5");
        reveal_strlit("6");
        reveal_strlit("7");
        reveal_strlit("8");
        reveal_strlit("9");
    }
    let r = if d == 0 {
        "0"
    } else if d == 1 {
        "1"
    } else if d == 2 {
        "2"
    } else if d == 3 {
        "3"
    } else if d == 4 {
        "4"
    } else if d == 5 {
        "5"
    } else if d == 6 {
        "6"
    } else if d == 7 {
        "7"
    } else if d == 8 {
        "8"
    } else {
        "9"
    };
    proof {
        assert(r@ =~= seq![spec_digit(d as nat)]);
    }
    r
}

/// The decimal numeral for `n`.
fn decimal_string(n: usize) -> (r: String)
    ensures
        r@ == spec_decimal(n as nat),
    decreases n,
{
    if n < 10 {
        String::from_str(digit_str(n))
    } else {
        let mut r = decimal_string(n / 10);
        r.append(digit_str(n % 10));
        r
    }
}

/// Generation distributes over concatenation: the second part is generated
/// against the registry that the first part leaves behind.
pub proof fn lemma_generate_append(
    args: TranspilerArguments,
    a: Seq<SpecCommand>,
    b: Seq<SpecCommand>,
    macros: Map<char, Seq<char>>,
)
    ensures
        spec_generate(args, a + b, macros).0 == spec_generate(args, a, macros).0 + spec_generate(
            args,
            b,
            spec_generate(args, a, macros).1,
        ).0,
        spec_generate(args, a + b, macros).1 == spec_generate(
            args,
            b,
            spec_generate(args, a, macros).1,
        ).1,
    decreases a.len(),
{
    if a.len() == 0 {
        assert(a + b =~= b);
        assert(Seq::<char>::empty() + spec_generate(args, b, macros).0 =~= spec_generate(
            args,
            b,
            macros,
        ).0);
    } else {
        let rest_a = a.subrange(1, a.len() as int);
        assert((a + b).subrange(1, (a + b).len() as int) =~= rest_a + b);
        assert((a + b)[0] == a[0]);
        match a[0] {
            SpecCommand::DefineMacro { name, code, .. } => {
                let body = spec_generate(args, code, macros);
                lemma_generate_append(args, rest_a, b, body.1.insert(name, body.0));
            },
            SpecCommand::RunMacro { name } => {
                lemma_generate_append(args, rest_a, b, macros);
                let expansion = if macros.contains_key(name) {
                    macros[name]
                } else {
                    Seq::<char>::empty()
                };
                assert(expansion + (spec_generate(args, rest_a, macros).0 + spec_generate(
                    args,
                    b,
                    spec_generate(args, rest_a, macros).1,
                ).0) =~= (expansion + spec_generate(args, rest_a, macros).0) + spec_generate(
                    args,
                    b,
                    spec_generate(args, rest_a, macros).1,
                ).0);
            },
            SpecCommand::Import { code, .. } => {
                let body = spec_generate(args, code, macros);
                lemma_generate_append(args, rest_a, b, body.1);
                assert(body.0 + (spec_generate(args, rest_a, body.1).0 + spec_generate(
                    args,
                    b,
                    spec_generate(args, rest_a, body.1).1,
                ).0) =~= (body.0 + spec_generate(args, rest_a, body.1).0) + spec_generate(
                    args,
                    b,
                    spec_generate(args, rest_a, body.1).1,
                ).0);
            },
            _ => {
                lemma_generate_append(args, rest_a, b, macros);
                assert(primitive_code(args, a[0]) + (spec_generate(args, rest_a, macros).0
                    + spec_generate(args, b, spec_generate(args, rest_a, macros).1).0)
                    =~= (primitive_code(args, a[0]) + spec_generate(args, rest_a, macros).0)
                    + spec_generate(args, b, spec_generate(args, rest_a, macros).1).0);
            },
        }
    }
}

/// Generating one primitive command emits its statement or operator run and
/// leaves the registry unchanged.
pub proof fn lemma_generate_primitive(
    args: TranspilerArguments,
    c: SpecCommand,
    macros: Map<char, Seq<char>>,
)
    requires
        !(c is DefineMacro),
        !(c is RunMacro),
        !(c is Import),
    ensures
        spec_generate(args, seq![c], macros) == (primitive_code(args, c), macros),
{
    assert(seq![c].subrange(1, 1) =~= Seq::<SpecCommand>::empty());
    assert(spec_generate(args, seq![c].subrange(1, 1), macros) == (
        Seq::<char>::empty(),
        macros,
    ));
    assert(primitive_code(args, c) + Seq::<char>::empty() =~= primitive_code(args, c));
}

/// Generating one macro definition stores the body's generation under the
/// name — replacing any earlier entry — and emits nothing.
pub proof fn lemma_generate_define(
    args: TranspilerArguments,
    name: char,
    toks: Seq<SpecToken>,
    code: Seq<SpecCommand>,
    macros: Map<char, Seq<char>>,
)
    ensures
        ({
            let body = spec_generate(args, code, macros);
            spec_generate(args, seq![SpecCommand::DefineMacro { name, tokens: toks, code }], macros)
                == (Seq::<char>::empty(), body.1.insert(name, body.0))
        }),
{
    let c = SpecCommand::DefineMacro { name, tokens: toks, code };
    let body = spec_generate(args, code, macros);
    assert(seq![c].subrange(1, 1) =~= Seq::<SpecCommand>::empty());
    assert(spec_generate(args, seq![c].subrange(1, 1), body.1.insert(name, body.0)) == (
        Seq::<char>::empty(),
        body.1.insert(name, body.0),
    ));
}

/// Generating one invocation emits the stored text — nothing for an
/// undefined name — and leaves the registry unchanged.
pub proof fn lemma_generate_run(
    args: TranspilerArguments,
    name: char,
    macros: Map<char, Seq<char>>,
)
    ensures
        spec_generate(args, seq![SpecCommand::RunMacro { name }], macros) == (
            if macros.contains_key(name) {
                macros[name]
            } else {
                Seq::<char>::empty()
            },
            macros,
        ),
{
    let c = SpecCommand::RunMacro { name };
    assert(seq![c].subrange(1, 1) =~= Seq::<SpecCommand>::empty());
    assert(spec_generate(args, seq![c].subrange(1, 1), macros) == (
        Seq::<char>::empty(),
        macros,
    ));
    let expansion = if macros.contains_key(name) {
        macros[name]
    } else {
        Seq::<char>::empty()
    };
    assert(expansion + Seq::<char>::empty() =~= expansion);
}

/// Generating one import is generating its body at that position.
pub proof fn lemma_generate_import(
    args: TranspilerArguments,
    file: Seq<char>,
    toks: Seq<SpecToken>,
    code: Seq<SpecCommand>,
    macros: Map<char, Seq<char>>,
)
    ensures
        spec_generate(args, seq![SpecCommand::Import { file, tokens: toks, code }], macros)
            == spec_generate(args, code, macros),
{
    let c = SpecCommand::Import { file, tokens: toks, code };
    let body = spec_generate(args, code, macros);
    assert(seq![c].subrange(1, 1) =~= Seq::<SpecCommand>::empty());
    assert(spec_generate(args, seq![c].subrange(1, 1), body.1) == (
        Seq::<char>::empty(),
        body.1,
    ));
    assert(body.0 + Seq::<char>::empty() =~= body.0);
}

/// The macro registry: a mapping from one-character macro names to their
/// generated target text. Entries are appended; the latest entry for a name
/// is its current definition.
struct MacroTable {
    names: Vec<char>,
    bodies: Vec<String>,
}

/// The map that a name/body table denotes: later entries win.
pub open spec fn macros_map(names: Seq<char>, bodies: Seq<String>) -> Map<char, Seq<char>>
    decreases names.len(),
{
    if names.len() == 0 || bodies.len() == 0 {
        Map::empty()
    } else {
        macros_map(names.drop_last(), bodies.drop_last()).insert(names.last(), bodies.last()@)
    }
}

impl View for MacroTable {
    type V = Map<char, Seq<char>>;

    closed spec fn view(&self) -> Map<char, Seq<char>> {
        macros_map(self.names@, self.bodies@)
    }
}

/// A name that no entry carries is not in the registry's map.
proof fn lemma_macros_map_absent(names: Seq<char>, bodies: Seq<String>, name: char)
    requires
        names.len() == bodies.len(),
        forall|k: int| 0 <= k < names.len() ==> names[k] != name,
    ensures
        !macros_map(names, bodies).contains_key(name),
    decreases names.len(),
{
    if names.len() > 0 {
        lemma_macros_map_absent(names.drop_last(), bodies.drop_last(), name);
    }
}

/// An entry that no later entry shadows gives the registry's text for its
/// name.
proof fn lemma_macros_map_at(names: Seq<char>, bodies: Seq<String>, i: int)
    requires
        names.len() == bodies.len(),
        0 <= i < names.len(),
        forall|k: int| i < k < names.len() ==> names[k] != names[i],
    ensures
        macros_map(names, bodies).contains_key(names[i]),
        macros_map(names, bodies)[names[i]] == bodies[i]@,
    decreases names.len(),
{
    if i < names.len() - 1 {
        lemma_macros_map_at(names.drop_last(), bodies.drop_last(), i);
    }
}

impl MacroTable {
    /// Well-formedness: every name has its text.
    spec fn wf(&self) -> bool {
        self.names@.len() == self.bodies@.len()
    }

    /// An empty registry.
    fn new() -> (t: MacroTable)
        ensures
            t@ == Map::<char, Seq<char>>::empty(),
            t.wf(),
    {
        MacroTable { names: Vec::new(), bodies: Vec::new() }
    }

    /// Stores `body` under `name`, replacing any earlier definition.
    fn insert(&mut self, name: char, body: String)
        requires
            old(self).wf(),
        ensures
            final(self).wf(),
            final(self)@ == old(self)@.insert(name, body@),
    {
        let ghost n0 = self.names@;
        let ghost b0 = self.bodies@;
        self.names.push(name);
        self.bodies.push(body);
        proof {
            assert(self.names@.drop_last() =~= n0);
            assert(self.bodies@.drop_last() =~= b0);
        }
    }

    /// The text stored for `name`, if any.
    fn get(&self, name: char) -> (r: Option<String>)
        requires
            self.wf(),
        ensures
            match r {
                Some(body) => self@.contains_key(name) && body@ == self@[name],
                None => !self@.contains_key(name),
            },
    {
        let mut j = self.names.len();
        while j > 0
            invariant
                self.wf(),
                j <= self.names@.len(),
                forall|k: int| j as int <= k < self.names@.len() ==> self.names@[k] != name,
            decreases j,
        {
            if self.names[j - 1] == name {
                proof {
                    lemma_macros_map_at(self.names@, self.bodies@, j as int - 1);
                }
                return Some(self.bodies[j - 1].clone());
            }
            j = j - 1;
        }
        proof {
            lemma_macros_map_absent(self.names@, self.bodies@, name);
        }
        None
    }
}

/// A code generator: walks commands and renders them for one backend,
/// threading the macro registry through the walk.
pub struct Transpiler {
    /// Defined macros, mapping their names to their generated text.
    macros: MacroTable,
}

impl View for Transpiler {
    type V = Map<char, Seq<char>>;

    closed spec fn view(&self) -> Map<char, Seq<char>> {
        self.macros@
    }
}

impl Transpiler {
    /// Well-formedness of the macro registry.
    pub closed spec fn wf(&self) -> bool {
        self.macros.wf()
    }

    /// A generator with an empty macro registry.
    pub fn new() -> (t: Transpiler)
        ensures
            t@ == Map::<char, Seq<char>>::empty(),
            t.wf(),
    {
        Transpiler { macros: MacroTable::new() }
    }

    /// Renders `commands` for the chosen backend, against (and updating)
    /// this generator's macro registry.
    pub fn transpile(&mut self, commands: Vec<BraincrapCommand>, args: &TranspilerArguments) -> (output: String)
        requires
            old(self).wf(),
        ensures
            final(self).wf(),
            ({
                let r = spec_generate(*args, cmds_view(commands@), old(self)@);
                &&& output@ == r.0
                &&& final(self)@ == r.1
            }),
    {
        match args {
            TranspilerArguments::Brainfuck => self.transpile_brainfuck(&commands),
            TranspilerArguments::C => self.transpile_c(&commands),
        }
    }

    /// Renders a command sequence as tape-language text.
    #[verifier::loop_isolation(false)]
    fn transpile_brainfuck(&mut self, commands: &Vec<BraincrapCommand>) -> (output: String)
        requires
            old(self).wf(),
        ensures
            final(self).wf(),
            ({
                let r = spec_generate(
                    TranspilerArguments::Brainfuck,
                    cmds_view(commands@),
                    old(self)@,
                );
                &&& output@ == r.0
                &&& final(self)@ == r.1
            }),
        decreases commands@, 1int,
    {
        let ghost args = TranspilerArguments::Brainfuck;
        let mut output = String::new();
        let mut idx: usize = 0;
        proof {
            assert(commands@.take(0) =~= Seq::<BraincrapCommand>::empty());
            assert(cmds_view(commands@.take(0)) =~= Seq::<SpecCommand>::empty());
        }
        while idx < commands.len()
            invariant
                self.wf(),
                idx <= commands@.len(),
                ({
                    let pr = spec_generate(args, cmds_view(commands@.take(idx as int)), old(self)@);
                    &&& output@ == pr.0
                    &&& self@ == pr.1
                }),
            decreases commands@.len() - idx,
        {
            let ghost prefix = commands@.take(idx as int);
            let ghost c = commands@[idx as int];
            let cmd_out = self.transpile_command_bf(&commands[idx]);
            output.append(cmd_out.as_str());
            idx = idx + 1;
            proof {
                assert(commands@.take(idx as int) =~= prefix.push(c));
                lemma_cmds_view_push(prefix, c);
                assert(cmds_view(prefix).push(cmd_view(c)) =~= cmds_view(prefix) + seq![
                    cmd_view(c),
                ]);
                lemma_generate_append(args, cmds_view(prefix), seq![cmd_view(c)], old(self)@);
            }
        }
        proof {
            assert(commands@.take(commands@.len() as int) =~= commands@);
        }
        output
    }

    /// Renders a command sequence as C-like text.
    #[verifier::loop_isolation(false)]
    fn transpile_c(&mut self, commands: &Vec<BraincrapCommand>) -> (output: String)
        requires
            old(self).wf(),
        ensures
            final(self).wf(),
            ({
                let r = spec_generate(TranspilerArguments::C, cmds_view(commands@), old(self)@);
                &&& output@ == r.0
                &&& final(self)@ == r.1
            }),
        decreases commands@, 1int,
    {
        let ghost args = TranspilerArguments::C;
        let mut output = String::new();
        let mut idx: usize = 0;
        proof {
            assert(commands@.take(0) =~= Seq::<BraincrapCommand>::empty());
            assert(cmds_view(commands@.take(0)) =~= Seq::<SpecCommand>::empty());
        }
        while idx < commands.len()
            invariant
                self.wf(),
                idx <= commands@.len(),
                ({
                    let pr = spec_generate(args, cmds_view(commands@.take(idx as int)), old(self)@);
                    &&& output@ == pr.0
                    &&& self@ == pr.1
                }),
            decreases commands@.len() - idx,
        {
            let ghost prefix = commands@.take(idx as int);
            let ghost c = commands@[idx as int];
            let cmd_out = self.transpile_command_c(&commands[idx]);
            output.append(cmd_out.as_str());
            idx = idx + 1;
            proof {
                assert(commands@.take(idx as int) =~= prefix.push(c));
                lemma_cmds_view_push(prefix, c);
                assert(cmds_view(prefix).push(cmd_view(c)) =~= cmds_view(prefix) + seq![
                    cmd_view(c),
                ]);
                lemma_generate_append(args, cmds_view(prefix), seq![cmd_view(c)], old(self)@);
            }
        }
        proof {
            assert(commands@.take(commands@.len() as int) =~= commands@);
        }
        output
    }

    /// Renders one command as tape-language text.
    fn transpile_command_bf(&mut self, command: &BraincrapCommand) -> (out: String)
        requires
            old(self).wf(),
        ensures
            final(self).wf(),
            ({
                let r = spec_generate(
                    TranspilerArguments::Brainfuck,
                    seq![cmd_view(*command)],
                    old(self)@,
                );
                &&& out@ == r.0
                &&& final(self)@ == r.1
            }),
        decreases command, 0int,
    {
        let ghost args = TranspilerArguments::Brainfuck;
        match command {
            BraincrapCommand::Addition(count) => {
                proof {
                    lemma_generate_primitive(args, cmd_view(*command), self@);
                }
                repeat_str("+", *count)
            },
            BraincrapCommand::Substraction(count) => {
                proof {
                    lemma_generate_primitive(args, cmd_view(*command), self@);
                }
                repeat_str("-", *count)
            },
            BraincrapCommand::MoveLeft(count) => {
                proof {
                    lemma_generate_primitive(args, cmd_view(*command), self@);
                }
                repeat_str("<", *count)
            },
            BraincrapCommand::MoveRight(count) => {
                proof {
                    lemma_generate_primitive(args, cmd_view(*command), self@);
                }
                repeat_str(">", *count)
            },
            BraincrapCommand::OpenLoop => {
                proof {
                    lemma_generate_primitive(args, cmd_view(*command), self@);
                }
                String::from_str("[")
            },
            BraincrapCommand::CloseLoop => {
                proof {
                    lemma_generate_primitive(args, cmd_view(*command), self@);
                }
                String::from_str("]")
            },
            BraincrapCommand::Output(count) => {
                proof {
                    lemma_generate_primitive(args, cmd_view(*command), self@);
                }
                repeat_str(".", *count)
            },
            BraincrapCommand::Input(count) => {
                proof {
                    lemma_generate_primitive(args, cmd_view(*command), self@);
                }
                repeat_str(",", *count)
            },
            BraincrapCommand::DefineMacro { name, tokens, code } => {
                let expanded = self.transpile_brainfuck(code);
                self.macros.insert(*name, expanded);
                proof {
                    lemma_generate_define(
                        args,
                        *name,
                        tokens_view(tokens@),
                        cmds_view(code@),
                        old(self)@,
                    );
                }
                String::new()
            },
            BraincrapCommand::RunMacro { name } => {
                proof {
                    lemma_generate_run(args, *name, self@);
                }
                match self.macros.get(*name) {
                    Some(body) => body,
                    None => String::new(),
                }
            },
            BraincrapCommand::Import { file, tokens, code } => {
                let out = self.transpile_brainfuck(code);
                proof {
                    lemma_generate_import(
                        args,
                        file@,
                        tokens_view(tokens@),
                        cmds_view(code@),
                        old(self)@,
                    );
                }
                out
            },
        }
    }

    /// Renders one command as C-like text.
    fn transpile_command_c(&mut self, command: &BraincrapCommand) -> (out: String)
        requires
            old(self).wf(),
        ensures
            final(self).wf(),
            ({
                let r = spec_generate(TranspilerArguments::C, seq![cmd_view(*command)], old(self)@);
                &&& out@ == r.0
                &&& final(self)@ == r.1
            }),
        decreases command, 0int,
    {
        let ghost args = TranspilerArguments::C;
        match command {
            BraincrapCommand::Addition(count) => {
                proof {
                    lemma_generate_primitive(args, cmd_view(*command), self@);
                }
                let mut out = String::from_str("(*ptr += ");
                out.append(decimal_string(*count).as_str());
                out.append(");");
                out
            },
            BraincrapCommand::Substraction(count) => {
                proof {
                    lemma_generate_primitive(args, cmd_view(*command), self@);
                }
                let mut out = String::from_str("(*ptr -= ");
                out.append(decimal_string(*count).as_str());
                out.append(");");
                out
            },
            BraincrapCommand::MoveLeft(count) => {
                proof {
                    lemma_generate_primitive(args, cmd_view(*command), self@);
                }
                let mut out = String::from_str("(ptr -= ");
                out.append(decimal_string(*count).as_str());
                out.append(");");
                out
            },
            BraincrapCommand::MoveRight(count) => {
                proof {
                    lemma_generate_primitive(args, cmd_view(*command), self@);
                }
                let mut out = String::from_str("(ptr += ");
                out.append(decimal_string(*count).as_str());
                out.append(");");
                out
            },
            BraincrapCommand::OpenLoop => {
                proof {
                    lemma_generate_primitive(args, cmd_view(*command), self@);
                }
                String::from_str("while(*ptr != 0){")
            },
            BraincrapCommand::CloseLoop => {
                proof {
                    lemma_generate_primitive(args, cmd_view(*command), self@);
                }
                String::from_str("}")
            },
            BraincrapCommand::Output(count) => {
                proof {
                    lemma_generate_primitive(args, cmd_view(*command), self@);
                }
                if *count >= 3 {
                    let mut out = String::from_str("for(int i=0;i<");
                    out.append(decimal_string(*count).as_str());
                    out.append(";i++){putchar(*ptr);}");
                    out
                } else {
                    repeat_str("putchar(*ptr);", *count)
                }
            },
            BraincrapCommand::Input(count) => {
                proof {
                    lemma_generate_primitive(args, cmd_view(*command), self@);
                }
                if *count >= 2 {
                    let mut out = String::from_str("for(int i=0;i<");
                    out.append(decimal_string(*count).as_str());
                    out.append(";i++){(*ptr = getchar());}");
                    out
                } else {
                    repeat_str("(*ptr = getchar());", *count)
                }
            },
            BraincrapCommand::DefineMacro { name, tokens, code } => {
                let expanded = self.transpile_c(code);
                self.macros.insert(*name, expanded);
                proof {
                    lemma_generate_define(
                        args,
                        *name,
                        tokens_view(tokens@),
                        cmds_view(code@),
                        old(self)@,
                    );
                }
                String::new()
            },
            BraincrapCommand::RunMacro { name } => {
                proof {
                    lemma_generate_run(args, *name, self@);
                }
                match self.macros.get(*name) {
                    Some(body) => body,
                    None => String::new(),
                }
            },
            BraincrapCommand::Import { file, tokens, code } => {
                let out = self.transpile_c(code);
                proof {
                    lemma_generate_import(
                        args,
                        file@,
                        tokens_view(tokens@),
                        cmds_view(code@),
                        old(self)@,
                    );
                }
                out
            },
        }
    }
}

impl Default for Transpiler {
    /// The default generator has an empty macro registry.
    fn default() -> (t: Self)
        ensures
            t@ == Map::<char, Seq<char>>::empty(),
            t.wf(),
    {
        Transpiler::new()
    }
}

} // verus!

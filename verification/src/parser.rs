//! Tree construction: turns a token sequence into a command sequence,
//! expanding macro bodies and imports inline at parse time.
//!
//! A macro marker must be followed by a name token and a text token; the body
//! text is re-lexed and re-parsed (with the same working directory) to form
//! the nested command list of a [`BraincrapCommand::DefineMacro`]. An import
//! marker must be followed by a text token naming a file; the file is looked
//! up in a [`SourceFiles`] table by its path resolved against the working
//! directory, and its contents are re-lexed and re-parsed with the imported
//! file's own parent directory as the new working directory. A missing file
//! counts as empty and is recorded (see [`Parser::missing_imports`]) so that
//! the caller can supply it and parse again. Malformed marker sequences are
//! dropped silently; parsing never fails.
//!
//! Expansion depth is bounded by [`MAX_EXPANSION_DEPTH`]: beyond it, macro
//! bodies and imports are no longer expanded. This bounds recursion on
//! adversarial input, in particular on import cycles.
//!
//! The mathematical model is [`spec_parse`]; [`Parser::parse`] is proved to
//! produce exactly its value.

use crate::tokenizer::{
    spec_tokenize, tokens_view, BraincrapToken, Lexer, SpecToken,
};
use vstd::prelude::*;
use vstd::string::{StrSliceExecFns, StringExecFns};

verus! {

/// Nesting depth beyond which macro bodies and imports are no longer
/// expanded. It bounds the recursion of [`Parser::parse`] on adversarial
/// input, in particular on import cycles.
pub const MAX_EXPANSION_DEPTH: usize = 64;

/// One parsed construct. `DefineMacro` and `Import` own their fully expanded
/// bodies, produced at parse time; loop markers are left unpaired.
#[derive(Debug, PartialEq, PartialOrd)]
pub enum BraincrapCommand {
    Addition(usize),
    Substraction(usize),
    MoveLeft(usize),
    MoveRight(usize),
    OpenLoop,
    CloseLoop,
    Output(usize),
    Input(usize),
    /// Defines a macro: the raw tokens of its body and their parse.
    DefineMacro { name: char, tokens: Vec<BraincrapToken>, code: Vec<BraincrapCommand> },
    /// Invokes a macro by name.
    RunMacro { name: char },
    /// Imports another script: the imported file's tokens and their parse.
    Import { file: String, tokens: Vec<BraincrapToken>, code: Vec<BraincrapCommand> },
}

/// The mathematical shape of a command: counts as `nat`, text as
/// `Seq<char>`, nested bodies as `Seq<SpecCommand>`.
pub ghost enum SpecCommand {
    Addition(nat),
    Substraction(nat),
    MoveLeft(nat),
    MoveRight(nat),
    OpenLoop,
    CloseLoop,
    Output(nat),
    Input(nat),
    DefineMacro { name: char, tokens: Seq<SpecToken>, code: Seq<SpecCommand> },
    RunMacro { name: char },
    Import { file: Seq<char>, tokens: Seq<SpecToken>, code: Seq<SpecCommand> },
}

/// An exact copy of a token sequence.
fn clone_tokens(v: &Vec<BraincrapToken>) -> (r: Vec<BraincrapToken>)
    ensures
        r@ == v@,
{
    let mut r: Vec<BraincrapToken> = Vec::new();
    let mut i: usize = 0;
    while i < v.len()
        invariant
            i <= v@.len(),
            r@.len() == i,
            forall|k: int| 0 <= k < i as int ==> r@[k] == v@[k],
        decreases v@.len() - i,
    {
        r.push(v[i].clone());
        i = i + 1;
    }
    proof {
        assert(r@ =~= v@);
    }
    r
}

/// An exact copy of a command sequence, up to the commands' model.
fn clone_commands(v: &Vec<BraincrapCommand>) -> (r: Vec<BraincrapCommand>)
    ensures
        r@.len() == v@.len(),
        forall|k: int| 0 <= k < v@.len() ==> cmd_view(r@[k]) == cmd_view(#[trigger] v@[k]),
    decreases v,
{
    let mut r: Vec<BraincrapCommand> = Vec::new();
    let mut i: usize = 0;
    while i < v.len()
        invariant
            i <= v@.len(),
            r@.len() == i,
            forall|k: int| 0 <= k < i as int ==> cmd_view(r@[k]) == cmd_view(#[trigger] v@[k]),
        decreases v@.len() - i,
    {
        r.push(v[i].clone());
        i = i + 1;
    }
    r
}

/// Sequences whose commands have the same model have the same model.
proof fn lemma_cmds_view_congruence(a: Seq<BraincrapCommand>, b: Seq<BraincrapCommand>)
    requires
        a.len() == b.len(),
        forall|k: int| 0 <= k < a.len() ==> cmd_view(a[k]) == cmd_view(#[trigger] b[k]),
    ensures
        cmds_view(a) == cmds_view(b),
    decreases a.len(),
{
    if a.len() == 0 {
    } else {
        assert(forall|k: int|
            0 <= k < a.len() - 1
                ==> cmd_view(a.subrange(1, a.len() as int)[k]) == cmd_view(
                #[trigger] b.subrange(1, b.len() as int)[k],
            ));
        lemma_cmds_view_congruence(a.subrange(1, a.len() as int), b.subrange(1, b.len() as int));
        assert(cmds_view(a) =~= cmds_view(b));
    }
}

impl Clone for BraincrapCommand {
    /// A clone has the same model as the original command.
    fn clone(&self) -> (r: Self)
        ensures
            cmd_view(r) == cmd_view(*self),
        decreases self,
    {
        match self {
            BraincrapCommand::Addition(n) => BraincrapCommand::Addition(*n),
            BraincrapCommand::Substraction(n) => BraincrapCommand::Substraction(*n),
            BraincrapCommand::MoveLeft(n) => BraincrapCommand::MoveLeft(*n),
            BraincrapCommand::MoveRight(n) => BraincrapCommand::MoveRight(*n),
            BraincrapCommand::OpenLoop => BraincrapCommand::OpenLoop,
            BraincrapCommand::CloseLoop => BraincrapCommand::CloseLoop,
            BraincrapCommand::Output(n) => BraincrapCommand::Output(*n),
            BraincrapCommand::Input(n) => BraincrapCommand::Input(*n),
            BraincrapCommand::DefineMacro { name, tokens, code } => {
                let new_tokens = clone_tokens(tokens);
                let new_code = clone_commands(code);
                proof {
                    lemma_cmds_view_congruence(new_code@, code@);
                }
                BraincrapCommand::DefineMacro { name: *name, tokens: new_tokens, code: new_code }
            },
            BraincrapCommand::RunMacro { name } => BraincrapCommand::RunMacro { name: *name },
            BraincrapCommand::Import { file, tokens, code } => {
                let new_tokens = clone_tokens(tokens);
                let new_code = clone_commands(code);
                proof {
                    lemma_cmds_view_congruence(new_code@, code@);
                }
                BraincrapCommand::Import {
                    file: file.clone(),
                    tokens: new_tokens,
                    code: new_code,
                }
            },
        }
    }
}

/// The model of one command.
pub open spec fn cmd_view(c: BraincrapCommand) -> SpecCommand
    decreases c,
{
    match c {
        BraincrapCommand::Addition(n) => SpecCommand::Addition(n as nat),
        BraincrapCommand::Substraction(n) => SpecCommand::Substraction(n as nat),
        BraincrapCommand::MoveLeft(n) => SpecCommand::MoveLeft(n as nat),
        BraincrapCommand::MoveRight(n) => SpecCommand::MoveRight(n as nat),
        BraincrapCommand::OpenLoop => SpecCommand::OpenLoop,
        BraincrapCommand::CloseLoop => SpecCommand::CloseLoop,
        BraincrapCommand::Output(n) => SpecCommand::Output(n as nat),
        BraincrapCommand::Input(n) => SpecCommand::Input(n as nat),
        BraincrapCommand::DefineMacro { name, tokens, code } => SpecCommand::DefineMacro {
            name,
            tokens: tokens_view(tokens@),
            code: cmds_view(code@),
        },
        BraincrapCommand::RunMacro { name } => SpecCommand::RunMacro { name },
        BraincrapCommand::Import { file, tokens, code } => SpecCommand::Import {
            file: file@,
            tokens: tokens_view(tokens@),
            code: cmds_view(code@),
        },
    }
}

/// The model of a command sequence.
pub open spec fn cmds_view(cs: Seq<BraincrapCommand>) -> Seq<SpecCommand>
    decreases cs,
{
    if cs.len() == 0 {
        Seq::empty()
    } else {
        seq![cmd_view(cs[0])] + cmds_view(cs.subrange(1, cs.len() as int))
    }
}

/// Pushing a command commutes with taking the sequence's model.
pub proof fn lemma_cmds_view_push(cs: Seq<BraincrapCommand>, c: BraincrapCommand)
    ensures
        cmds_view(cs.push(c)) == cmds_view(cs).push(cmd_view(c)),
    decreases cs.len(),
{
    if cs.len() == 0 {
        assert(cs.push(c).subrange(1, 1) =~= Seq::<BraincrapCommand>::empty());
        assert(cmds_view(cs.push(c).subrange(1, 1)) =~= Seq::<SpecCommand>::empty());
        assert(cmds_view(cs.push(c)) =~= cmds_view(cs).push(cmd_view(c)));
    } else {
        assert(cs.push(c).subrange(1, cs.len() as int + 1) =~= cs.subrange(
            1,
            cs.len() as int,
        ).push(c));
        lemma_cmds_view_push(cs.subrange(1, cs.len() as int), c);
        assert(cmds_view(cs.push(c)) =~= cmds_view(cs).push(cmd_view(c)));
    }
}

/// The model of a sequence of owned strings.
pub open spec fn strs_view(ss: Seq<String>) -> Seq<Seq<char>> {
    ss.map_values(|s: String| s@)
}

/// Pushing a string commutes with taking the sequence's model.
pub proof fn lemma_strs_view_push(ss: Seq<String>, s: String)
    ensures
        strs_view(ss.push(s)) == strs_view(ss).push(s@),
{
    assert(strs_view(ss.push(s)) =~= strs_view(ss).push(s@));
}

/// Resolves `name` against the working directory `pwd`. Paths are plain
/// `/`-separated strings: a name that starts with `/` stands alone, and an
/// empty working directory adds nothing.
pub open spec fn spec_path_join(pwd: Seq<char>, name: Seq<char>) -> Seq<char> {
    if name.len() > 0 && name[0] == '/' {
        name
    } else if pwd.len() == 0 {
        name
    } else {
        pwd + seq!['/'] + name
    }
}

/// The position of the last `/` in `p`, or `-1` if there is none.
pub open spec fn last_slash(p: Seq<char>) -> int
    decreases p.len(),
{
    if p.len() == 0 {
        -1
    } else if p[p.len() - 1] == '/' {
        p.len() - 1
    } else {
        last_slash(p.drop_last())
    }
}

/// A `/` that no later character matches marks exactly [`last_slash`].
pub proof fn lemma_last_slash_is(p: Seq<char>, i: int)
    requires
        0 <= i < p.len(),
        p[i] == '/',
        forall|k: int| i < k < p.len() ==> p[k] != '/',
    ensures
        last_slash(p) == i,
    decreases p.len(),
{
    if p[p.len() - 1] != '/' {
        assert(forall|k: int|
            0 <= k < p.len() - 1 ==> p.drop_last()[k] == p[k]);
        lemma_last_slash_is(p.drop_last(), i);
    }
}

/// No `/` anywhere means [`last_slash`] is `-1`.
pub proof fn lemma_last_slash_none(p: Seq<char>)
    requires
        forall|k: int| 0 <= k < p.len() ==> p[k] != '/',
    ensures
        last_slash(p) == -1,
    decreases p.len(),
{
    if p.len() > 0 {
        assert(forall|k: int|
            0 <= k < p.len() - 1 ==> p.drop_last()[k] == p[k]);
        lemma_last_slash_none(p.drop_last());
    }
}

/// The directory part of a path: everything before the last `/`, or the
/// empty path when there is no `/`.
pub open spec fn spec_path_parent(p: Seq<char>) -> Seq<char> {
    if last_slash(p) < 0 {
        Seq::empty()
    } else {
        p.subrange(0, last_slash(p))
    }
}

/// Exec twin of [`spec_path_join`].
pub fn path_join(pwd: &str, name: &str) -> (r: String)
    ensures
        r@ == spec_path_join(pwd@, name@),
{
    let name_len = name.unicode_len();
    if name_len > 0 && name.get_char(0) == '/' {
        String::from_str(name)
    } else if pwd.unicode_len() == 0 {
        String::from_str(name)
    } else {
        let mut r = String::from_str(pwd);
        r.append("/");
        r.append(name);
        proof {
            reveal_strlit("/");
            assert("/"@ =~= seq!['/']);
        }
        r
    }
}

/// Exec twin of [`spec_path_parent`].
pub fn path_parent(p: &str) -> (r: String)
    ensures
        r@ == spec_path_parent(p@),
{
    let n = p.unicode_len();
    let mut j = n;
    while j > 0
        invariant
            j <= n,
            n as int == p@.len(),
            forall|k: int| j as int <= k < p@.len() ==> p@[k] != '/',
        decreases j,
    {
        if p.get_char(j - 1) == '/' {
            proof {
                lemma_last_slash_is(p@, j as int - 1);
            }
            return String::from_str(p.substring_char(0, j - 1));
        }
        j = j - 1;
    }
    proof {
        lemma_last_slash_none(p@);
    }
    String::new()
}

/// The file contents available to import resolution, keyed by resolved
/// path. A later entry for the same path replaces an earlier one.
pub struct SourceFiles {
    paths: Vec<String>,
    contents: Vec<String>,
}

/// The map that a path/contents table denotes: later entries win.
pub open spec fn files_map(paths: Seq<String>, contents: Seq<String>) -> Map<Seq<char>, Seq<char>>
    decreases paths.len(),
{
    if paths.len() == 0 || contents.len() == 0 {
        Map::empty()
    } else {
        files_map(paths.drop_last(), contents.drop_last()).insert(
            paths.last()@,
            contents.last()@,
        )
    }
}

impl View for SourceFiles {
    type V = Map<Seq<char>, Seq<char>>;

    closed spec fn view(&self) -> Map<Seq<char>, Seq<char>> {
        files_map(self.paths@, self.contents@)
    }
}

/// A key that no entry carries is not in the table's map.
proof fn lemma_files_map_absent(paths: Seq<String>, contents: Seq<String>, key: Seq<char>)
    requires
        paths.len() == contents.len(),
        forall|k: int| 0 <= k < paths.len() ==> paths[k]@ != key,
    ensures
        !files_map(paths, contents).contains_key(key),
    decreases paths.len(),
{
    if paths.len() > 0 {
        lemma_files_map_absent(paths.drop_last(), contents.drop_last(), key);
    }
}

/// An entry that no later entry shadows gives the table's value for its key.
proof fn lemma_files_map_at(paths: Seq<String>, contents: Seq<String>, i: int)
    requires
        paths.len() == contents.len(),
        0 <= i < paths.len(),
        forall|k: int| i < k < paths.len() ==> paths[k]@ != paths[i]@,
    ensures
        files_map(paths, contents).contains_key(paths[i]@),
        files_map(paths, contents)[paths[i]@] == contents[i]@,
    decreases paths.len(),
{
    if i < paths.len() - 1 {
        lemma_files_map_at(paths.drop_last(), contents.drop_last(), i);
    }
}

impl SourceFiles {
    /// Well-formedness: every path has its contents.
    pub closed spec fn wf(&self) -> bool {
        self.paths@.len() == self.contents@.len()
    }

    /// An empty table.
    pub fn new() -> (s: SourceFiles)
        ensures
            s@ == Map::<Seq<char>, Seq<char>>::empty(),
            s.wf(),
    {
        SourceFiles { paths: Vec::new(), contents: Vec::new() }
    }

    /// Adds a file, replacing any earlier entry for the same path.
    pub fn insert(&mut self, path: String, contents: String)
        requires
            old(self).wf(),
        ensures
            final(self).wf(),
            final(self)@ == old(self)@.insert(path@, contents@),
    {
        let ghost p0 = self.paths@;
        let ghost c0 = self.contents@;
        self.paths.push(path);
        self.contents.push(contents);
        proof {
            assert(self.paths@.drop_last() =~= p0);
            assert(self.contents@.drop_last() =~= c0);
        }
    }

    /// The contents stored for `path`, if any.
    fn get(&self, path: &String) -> (r: Option<String>)
        requires
            self.wf(),
        ensures
            match r {
                Some(c) => self@.contains_key(path@) && c@ == self@[path@],
                None => !self@.contains_key(path@),
            },
    {
        let mut j = self.paths.len();
        while j > 0
            invariant
                self.wf(),
                j <= self.paths@.len(),
                forall|k: int| j as int <= k < self.paths@.len() ==> self.paths@[k]@ != path@,
            decreases j,
        {
            if self.paths[j - 1] == *path {
                proof {
                    lemma_files_map_at(self.paths@, self.contents@, j as int - 1);
                }
                return Some(self.contents[j - 1].clone());
            }
            j = j - 1;
        }
        proof {
            lemma_files_map_absent(self.paths@, self.contents@, path@);
        }
        None
    }
}

impl Clone for SourceFiles {
    /// A clone denotes the same map.
    fn clone(&self) -> (r: Self)
        ensures
            r@ == self@,
            self.wf() ==> r.wf(),
    {
        let mut paths: Vec<String> = Vec::new();
        let mut contents: Vec<String> = Vec::new();
        let mut i: usize = 0;
        while i < self.paths.len()
            invariant
                i <= self.paths@.len(),
                paths@.len() == i,
                forall|k: int| 0 <= k < i as int ==> paths@[k]@ == self.paths@[k]@,
            decreases self.paths@.len() - i,
        {
            paths.push(self.paths[i].clone());
            i = i + 1;
        }
        let mut i: usize = 0;
        while i < self.contents.len()
            invariant
                i <= self.contents@.len(),
                contents@.len() == i,
                forall|k: int| 0 <= k < i as int ==> contents@[k]@ == self.contents@[k]@,
            decreases self.contents@.len() - i,
        {
            contents.push(self.contents[i].clone());
            i = i + 1;
        }
        let r = SourceFiles { paths, contents };
        proof {
            lemma_files_map_congruence(r.paths@, r.contents@, self.paths@, self.contents@);
        }
        r
    }
}

/// The number of tokens at or after position `i`, zero when `i` is past the
/// end. It is the measure of the parse recursion within one depth level.
pub open spec fn remaining(tokens: Seq<SpecToken>, i: int) -> int {
    if i <= tokens.len() {
        tokens.len() - i
    } else {
        0
    }
}

/// What parsing produces: the commands, and the resolved paths of imports
/// that the file table lacked, in the order they were encountered.
pub type SpecParseResult = (Seq<SpecCommand>, Seq<Seq<char>>);

/// Parsing from position `i` of a token sequence, with working directory
/// `pwd`, file table `files`, and `depth` expansion levels left.
///
/// Each step consumes tokens exactly as the parser does: one token for a
/// plain command, and up to three for a macro-definition or import sequence,
/// whether or not the sequence is well-formed (a malformed one is dropped
/// silently). Macro bodies and import contents are re-lexed and parsed one
/// depth level down. Continuation positions may point past the end; parsing
/// there yields nothing.
pub open spec fn spec_parse_from(
    tokens: Seq<SpecToken>,
    i: int,
    pwd: Seq<char>,
    files: Map<Seq<char>, Seq<char>>,
    depth: nat,
) -> SpecParseResult
    decreases depth, remaining(tokens, i), 0int,
{
    if depth == 0 || i < 0 || i >= tokens.len() {
        (Seq::empty(), Seq::empty())
    } else {
        match tokens[i] {
            SpecToken::Plus(n) => {
                let rest = spec_parse_from(tokens, i + 1, pwd, files, depth);
                (seq![SpecCommand::Addition(n)] + rest.0, rest.1)
            },
            SpecToken::Minus(n) => {
                let rest = spec_parse_from(tokens, i + 1, pwd, files, depth);
                (seq![SpecCommand::Substraction(n)] + rest.0, rest.1)
            },
            SpecToken::Left(n) => {
                let rest = spec_parse_from(tokens, i + 1, pwd, files, depth);
                (seq![SpecCommand::MoveLeft(n)] + rest.0, rest.1)
            },
            SpecToken::Right(n) => {
                let rest = spec_parse_from(tokens, i + 1, pwd, files, depth);
                (seq![SpecCommand::MoveRight(n)] + rest.0, rest.1)
            },
            SpecToken::LeftBracket => {
                let rest = spec_parse_from(tokens, i + 1, pwd, files, depth);
                (seq![SpecCommand::OpenLoop] + rest.0, rest.1)
            },
            SpecToken::RightBracket => {
                let rest = spec_parse_from(tokens, i + 1, pwd, files, depth);
                (seq![SpecCommand::CloseLoop] + rest.0, rest.1)
            },
            SpecToken::Dot(n) => {
                let rest = spec_parse_from(tokens, i + 1, pwd, files, depth);
                (seq![SpecCommand::Output(n)] + rest.0, rest.1)
            },
            SpecToken::Comma(n) => {
                let rest = spec_parse_from(tokens, i + 1, pwd, files, depth);
                (seq![SpecCommand::Input(n)] + rest.0, rest.1)
            },
            SpecToken::Hash => {
                if i + 1 < tokens.len() {
                    match tokens[i + 1] {
                        SpecToken::Name(name) => {
                            if i + 2 < tokens.len() {
                                match tokens[i + 2] {
                                    SpecToken::Text(body) => {
                                        let body_tokens = spec_tokenize(body);
                                        let sub = spec_parse_at(
                                            body_tokens,
                                            0,
                                            pwd,
                                            files,
                                            (depth - 1) as nat,
                                        );
                                        let rest = spec_parse_from(tokens, i + 3, pwd, files, depth);
                                        (
                                            seq![
                                                SpecCommand::DefineMacro {
                                                    name,
                                                    tokens: body_tokens,
                                                    code: sub.0,
                                                },
                                            ] + rest.0,
                                            sub.1 + rest.1,
                                        )
                                    },
                                    _ => spec_parse_from(tokens, i + 3, pwd, files, depth),
                                }
                            } else {
                                spec_parse_from(tokens, i + 3, pwd, files, depth)
                            }
                        },
                        _ => spec_parse_from(tokens, i + 2, pwd, files, depth),
                    }
                } else {
                    spec_parse_from(tokens, i + 2, pwd, files, depth)
                }
            },
            SpecToken::Dollar => {
                if i + 1 < tokens.len() {
                    match tokens[i + 1] {
                        SpecToken::Text(fname) => {
                            let fpath = spec_path_join(pwd, fname);
                            let known = files.contains_key(fpath);
                            let content = if known {
                                files[fpath]
                            } else {
                                Seq::<char>::empty()
                            };
                            let file_tokens = spec_tokenize(content);
                            let sub = spec_parse_at(
                                file_tokens,
                                0,
                                spec_path_parent(fpath),
                                files,
                                (depth - 1) as nat,
                            );
                            let rest = spec_parse_from(tokens, i + 2, pwd, files, depth);
                            (
                                seq![
                                    SpecCommand::Import { file: fname, tokens: file_tokens, code: sub.0 },
                                ] + rest.0,
                                (if known {
                                    Seq::<Seq<char>>::empty()
                                } else {
                                    seq![fpath]
                                }) + sub.1 + rest.1,
                            )
                        },
                        _ => spec_parse_from(tokens, i + 2, pwd, files, depth),
                    }
                } else {
                    spec_parse_from(tokens, i + 2, pwd, files, depth)
                }
            },
            SpecToken::Name(name) => {
                let rest = spec_parse_from(tokens, i + 1, pwd, files, depth);
                (seq![SpecCommand::RunMacro { name }] + rest.0, rest.1)
            },
            SpecToken::Text(_) => spec_parse_from(tokens, i + 1, pwd, files, depth),
        }
    }
}

/// Parsing from position `i`: nothing when no expansion depth is left,
/// otherwise [`spec_parse_from`].
pub open spec fn spec_parse_at(
    tokens: Seq<SpecToken>,
    i: int,
    pwd: Seq<char>,
    files: Map<Seq<char>, Seq<char>>,
    depth: nat,
) -> SpecParseResult
    decreases depth, remaining(tokens, i), 1int,
{
    if depth == 0 {
        (Seq::empty(), Seq::empty())
    } else {
        spec_parse_from(tokens, i, pwd, files, depth)
    }
}

/// Parsing a whole token sequence.
pub open spec fn spec_parse(
    tokens: Seq<SpecToken>,
    pwd: Seq<char>,
    files: Map<Seq<char>, Seq<char>>,
    depth: nat,
) -> SpecParseResult {
    spec_parse_at(tokens, 0, pwd, files, depth)
}

/// Tables whose entries denote the same strings denote the same map.
proof fn lemma_files_map_congruence(
    paths1: Seq<String>,
    contents1: Seq<String>,
    paths2: Seq<String>,
    contents2: Seq<String>,
)
    requires
        paths1.len() == paths2.len(),
        contents1.len() == contents2.len(),
        forall|k: int| 0 <= k < paths1.len() ==> paths1[k]@ == paths2[k]@,
        forall|k: int| 0 <= k < contents1.len() ==> contents1[k]@ == contents2[k]@,
    ensures
        files_map(paths1, contents1) == files_map(paths2, contents2),
    decreases paths1.len(),
{
    if paths1.len() == 0 || contents1.len() == 0 {
    } else {
        assert(forall|k: int|
            0 <= k < paths1.len() - 1 ==> paths1.drop_last()[k]@ == paths2.drop_last()[k]@);
        assert(forall|k: int|
            0 <= k < contents1.len() - 1
                ==> contents1.drop_last()[k]@ == contents2.drop_last()[k]@);
        lemma_files_map_congruence(
            paths1.drop_last(),
            contents1.drop_last(),
            paths2.drop_last(),
            contents2.drop_last(),
        );
    }
}

/// Taking the model of a string sequence commutes with concatenation.
pub proof fn lemma_strs_view_append(a: Seq<String>, b: Seq<String>)
    ensures
        strs_view(a + b) == strs_view(a) + strs_view(b),
{
    assert(strs_view(a + b) =~= strs_view(a) + strs_view(b));
}

/// Appending to a sequence that extends `m0` keeps `m0` a prefix, and the
/// part beyond `m0` grows by exactly what was appended.
pub proof fn lemma_missing_extend(m0: Seq<Seq<char>>, pre: Seq<Seq<char>>, add: Seq<Seq<char>>)
    requires
        m0.is_prefix_of(pre),
    ensures
        m0.is_prefix_of(pre + add),
        (pre + add).skip(m0.len() as int) == pre.skip(m0.len() as int) + add,
{
    assert((pre + add).subrange(0, m0.len() as int) =~= pre.subrange(0, m0.len() as int));
    assert((pre + add).skip(m0.len() as int) =~= pre.skip(m0.len() as int) + add);
}

/// The parser's abstract state.
pub ghost struct ParserView {
    /// The token sequence being parsed.
    pub tokens: Seq<SpecToken>,
    /// The working directory against which imports resolve.
    pub pwd: Seq<char>,
    /// The file table that imports are looked up in.
    pub files: Map<Seq<char>, Seq<char>>,
    /// The position of the next token to consume.
    pub position: int,
    /// How many expansion levels are left.
    pub depth: nat,
    /// The resolved paths of imports that the file table lacked.
    pub missing: Seq<Seq<char>>,
}

/// A parser for the token stream of one source text.
pub struct Parser {
    /// The working directory for resolving relative imports.
    pwd: String,
    /// The tokens to be parsed.
    tokens: Vec<BraincrapToken>,
    /// The current position within the token stream.
    current_position: usize,
    /// The contents of the files that imports may name.
    files: SourceFiles,
    /// How many expansion levels are left below this parser.
    depth: usize,
    /// The resolved paths of imports that `files` lacked.
    missing: Vec<String>,
}

impl View for Parser {
    type V = ParserView;

    closed spec fn view(&self) -> ParserView {
        ParserView {
            tokens: tokens_view(self.tokens@),
            pwd: self.pwd@,
            files: self.files@,
            position: self.current_position as int,
            depth: self.depth as nat,
            missing: strs_view(self.missing@),
        }
    }
}

impl Parser {
    /// Well-formedness: the file table is well-formed.
    pub closed spec fn wf(&self) -> bool {
        self.files.wf()
    }

    /// A parser over `tokens` at a chosen expansion depth.
    fn with_depth(tokens: Vec<BraincrapToken>, pwd: String, files: SourceFiles, depth: usize) -> (p:
        Parser)
        requires
            files.wf(),
        ensures
            p.wf(),
            p@ == (ParserView {
                tokens: tokens_view(tokens@),
                pwd: pwd@,
                files: files@,
                position: 0,
                depth: depth as nat,
                missing: Seq::empty(),
            }),
    {
        let p = Parser { pwd, tokens, current_position: 0, files, depth, missing: Vec::new() };
        proof {
            assert(strs_view(p.missing@) =~= Seq::<Seq<char>>::empty());
        }
        p
    }

    /// A parser over `tokens`, resolving imports against `pwd` through the
    /// file table `files`, with the full expansion depth available.
    pub fn new(tokens: Vec<BraincrapToken>, pwd: String, files: SourceFiles) -> (p: Parser)
        requires
            files.wf(),
        ensures
            p.wf(),
            p@ == (ParserView {
                tokens: tokens_view(tokens@),
                pwd: pwd@,
                files: files@,
                position: 0,
                depth: MAX_EXPANSION_DEPTH as nat,
                missing: Seq::empty(),
            }),
    {
        Parser::with_depth(tokens, pwd, files, MAX_EXPANSION_DEPTH)
    }

    /// The resolved paths of the imports that the file table lacked, in the
    /// order parsing encountered them. Such imports expanded to nothing; a
    /// caller may add the files to the table and parse again.
    pub fn missing_imports(&self) -> (r: &Vec<String>)
        ensures
            strs_view(r@) == self@.missing,
    {
        &self.missing
    }

    /// The next token, advancing the position; `None` at the end.
    fn next_token(&mut self) -> (r: Option<BraincrapToken>)
        ensures
            final(self).pwd == old(self).pwd,
            final(self).tokens == old(self).tokens,
            final(self).files == old(self).files,
            final(self).depth == old(self).depth,
            final(self).missing == old(self).missing,
            old(self).current_position < old(self).tokens@.len() ==> {
                &&& r == Some(old(self).tokens@[old(self).current_position as int])
                &&& final(self).current_position == old(self).current_position + 1
            },
            old(self).current_position >= old(self).tokens@.len() ==> {
                &&& r is None
                &&& final(self).current_position == old(self).current_position
            },
    {
        if self.current_position < self.tokens.len() {
            self.current_position = self.current_position + 1;
            Some(self.tokens[self.current_position - 1].clone())
        } else {
            None
        }
    }

    /// Parses a macro definition: the body's tokens are parsed one depth
    /// level down, with the same working directory, into the nested command
    /// list of the `DefineMacro` command.
    fn parse_macro(&mut self, name: char, tokens: Vec<BraincrapToken>) -> (cmd: BraincrapCommand)
        requires
            old(self).wf(),
            old(self)@.depth >= 1,
        ensures
            final(self).wf(),
            ({
                let sub = spec_parse(
                    tokens_view(tokens@),
                    old(self)@.pwd,
                    old(self)@.files,
                    (old(self)@.depth - 1) as nat,
                );
                &&& cmd_view(cmd) == (SpecCommand::DefineMacro {
                    name,
                    tokens: tokens_view(tokens@),
                    code: sub.0,
                })
                &&& final(self)@ == (ParserView {
                    missing: old(self)@.missing + sub.1,
                    ..old(self)@
                })
            }),
        decreases self.depth, 0int,
    {
        let ghost sub = spec_parse(
            tokens_view(tokens@),
            old(self)@.pwd,
            old(self)@.files,
            (old(self)@.depth - 1) as nat,
        );
        let body_tokens = clone_tokens(&tokens);
        let mut nested = Parser::with_depth(
            body_tokens,
            self.pwd.clone(),
            self.files.clone(),
            self.depth - 1,
        );
        let code = nested.parse();
        let ghost mid_raw = self.missing@;
        let ghost nested_raw = nested.missing@;
        self.missing.append(&mut nested.missing);
        proof {
            lemma_strs_view_append(mid_raw, nested_raw);
            assert(strs_view(nested_raw) =~= sub.1);
            assert(self@.missing =~= old(self)@.missing + sub.1);
            assert(self@ == (ParserView { missing: old(self)@.missing + sub.1, ..old(self)@ }));
        }
        BraincrapCommand::DefineMacro { name, tokens, code }
    }

    /// Parses an import: the named file is resolved against the working
    /// directory and looked up in the file table (a missing file counts as
    /// empty and is recorded); its contents are lexed and parsed one depth
    /// level down, with the imported file's own parent directory as the new
    /// working directory.
    fn parse_import(&mut self, filename: String) -> (cmd: BraincrapCommand)
        requires
            old(self).wf(),
            old(self)@.depth >= 1,
        ensures
            final(self).wf(),
            ({
                let fpath = spec_path_join(old(self)@.pwd, filename@);
                let known = old(self)@.files.contains_key(fpath);
                let content = if known {
                    old(self)@.files[fpath]
                } else {
                    Seq::<char>::empty()
                };
                let file_tokens = spec_tokenize(content);
                let sub = spec_parse(
                    file_tokens,
                    spec_path_parent(fpath),
                    old(self)@.files,
                    (old(self)@.depth - 1) as nat,
                );
                &&& cmd_view(cmd) == (SpecCommand::Import {
                    file: filename@,
                    tokens: file_tokens,
                    code: sub.0,
                })
                &&& final(self)@ == (ParserView {
                    missing: old(self)@.missing + (if known {
                        Seq::<Seq<char>>::empty()
                    } else {
                        seq![fpath]
                    }) + sub.1,
                    ..old(self)@
                })
            }),
        decreases self.depth, 0int,
    {
        let ghost fpath = spec_path_join(old(self)@.pwd, filename@);
        let ghost known = old(self)@.files.contains_key(fpath);
        let filepath = path_join(self.pwd.as_str(), filename.as_str());
        let content = match self.files.get(&filepath) {
            Some(c) => c,
            None => {
                self.missing.push(filepath.clone());
                proof {
                    lemma_strs_view_push(old(self).missing@, filepath);
                }
                String::new()
            },
        };
        proof {
            assert(self@.missing =~= old(self)@.missing + (if known {
                Seq::<Seq<char>>::empty()
            } else {
                seq![fpath]
            }));
        }
        let ghost sub = spec_parse(
            spec_tokenize(content@),
            spec_path_parent(fpath),
            old(self)@.files,
            (old(self)@.depth - 1) as nat,
        );
        let mut lexer = Lexer::new(content);
        let file_tokens = lexer.tokenize();
        let body_tokens = clone_tokens(&file_tokens);
        let parent = path_parent(filepath.as_str());
        let mut nested = Parser::with_depth(body_tokens, parent, self.files.clone(), self.depth - 1);
        let code = nested.parse();
        let ghost mid_raw = self.missing@;
        let ghost nested_raw = nested.missing@;
        self.missing.append(&mut nested.missing);
        proof {
            lemma_strs_view_append(mid_raw, nested_raw);
            assert(strs_view(nested_raw) =~= sub.1);
            assert(self@.missing =~= old(self)@.missing + (if known {
                Seq::<Seq<char>>::empty()
            } else {
                seq![fpath]
            }) + sub.1);
            assert(self@ == (ParserView {
                missing: old(self)@.missing + (if known {
                    Seq::<Seq<char>>::empty()
                } else {
                    seq![fpath]
                }) + sub.1,
                ..old(self)@
            }));
        }
        BraincrapCommand::Import { file: filename, tokens: file_tokens, code }
    }

    /// Parses the token stream into commands, recording the resolved paths
    /// of any imports that the file table lacked.
    #[verifier::loop_isolation(false)]
    #[verifier::rlimit(60)]
    pub fn parse(&mut self) -> (commands: Vec<BraincrapCommand>)
        requires
            old(self).wf(),
        ensures
            final(self).wf(),
            ({
                let result = spec_parse_at(
                    old(self)@.tokens,
                    old(self)@.position,
                    old(self)@.pwd,
                    old(self)@.files,
                    old(self)@.depth,
                );
                &&& cmds_view(commands@) == result.0
                &&& final(self)@.missing == old(self)@.missing + result.1
                &&& final(self)@.tokens == old(self)@.tokens
                &&& final(self)@.pwd == old(self)@.pwd
                &&& final(self)@.files == old(self)@.files
                &&& final(self)@.depth == old(self)@.depth
            }),
        decreases self@.depth, 1int,
    {
        let ghost t = self@.tokens;
        let ghost p0 = self@.position;
        let ghost pw = self@.pwd;
        let ghost fm = self@.files;
        let ghost d = self@.depth;
        let ghost m0 = self@.missing;
        let mut commands: Vec<BraincrapCommand> = Vec::new();
        proof {
            assert(cmds_view(commands@) =~= Seq::<SpecCommand>::empty());
        }
        if self.depth == 0 {
            proof {
                assert(self@.missing =~= old(self)@.missing + Seq::<Seq<char>>::empty());
            }
            return commands;
        }
        while self.current_position < self.tokens.len()
            invariant
                self.wf(),
                self@.tokens == t,
                self@.pwd == pw,
                self@.files == fm,
                self@.depth == d,
                m0.is_prefix_of(self@.missing),
                ({
                    let full = spec_parse_from(t, p0, pw, fm, d);
                    let rest = spec_parse_from(t, self@.position, pw, fm, d);
                    &&& full.0 == cmds_view(commands@) + rest.0
                    &&& full.1 == self@.missing.skip(m0.len() as int) + rest.1
                }),
            decreases remaining(t, self@.position),
        {
            let ghost i = self@.position;
            let ghost pre_cmds = commands@;
            match self.next_token() {
                None => {
                    proof {
                        assert(false);
                    }
                },
                Some(tok) => match tok {
                    BraincrapToken::Plus(count) => {
                        commands.push(BraincrapCommand::Addition(count));
                        proof {
                            lemma_cmds_view_push(pre_cmds, BraincrapCommand::Addition(count));
                            assert(spec_parse_from(t, p0, pw, fm, d).0 =~= cmds_view(commands@)
                                + spec_parse_from(t, self@.position, pw, fm, d).0);
                        }
                    },
                    BraincrapToken::Minus(count) => {
                        commands.push(BraincrapCommand::Substraction(count));
                        proof {
                            lemma_cmds_view_push(pre_cmds, BraincrapCommand::Substraction(count));
                            assert(spec_parse_from(t, p0, pw, fm, d).0 =~= cmds_view(commands@)
                                + spec_parse_from(t, self@.position, pw, fm, d).0);
                        }
                    },
                    BraincrapToken::Left(count) => {
                        commands.push(BraincrapCommand::MoveLeft(count));
                        proof {
                            lemma_cmds_view_push(pre_cmds, BraincrapCommand::MoveLeft(count));
                            assert(spec_parse_from(t, p0, pw, fm, d).0 =~= cmds_view(commands@)
                                + spec_parse_from(t, self@.position, pw, fm, d).0);
                        }
                    },
                    BraincrapToken::Right(count) => {
                        commands.push(BraincrapCommand::MoveRight(count));
                        proof {
                            lemma_cmds_view_push(pre_cmds, BraincrapCommand::MoveRight(count));
                            assert(spec_parse_from(t, p0, pw, fm, d).0 =~= cmds_view(commands@)
                                + spec_parse_from(t, self@.position, pw, fm, d).0);
                        }
                    },
                    BraincrapToken::LeftBracket => {
                        commands.push(BraincrapCommand::OpenLoop);
                        proof {
                            lemma_cmds_view_push(pre_cmds, BraincrapCommand::OpenLoop);
                            assert(spec_parse_from(t, p0, pw, fm, d).0 =~= cmds_view(commands@)
                                + spec_parse_from(t, self@.position, pw, fm, d).0);
                        }
                    },
                    BraincrapToken::RightBracket => {
                        commands.push(BraincrapCommand::CloseLoop);
                        proof {
                            lemma_cmds_view_push(pre_cmds, BraincrapCommand::CloseLoop);
                            assert(spec_parse_from(t, p0, pw, fm, d).0 =~= cmds_view(commands@)
                                + spec_parse_from(t, self@.position, pw, fm, d).0);
                        }
                    },
                    BraincrapToken::Dot(count) => {
                        commands.push(BraincrapCommand::Output(count));
                        proof {
                            lemma_cmds_view_push(pre_cmds, BraincrapCommand::Output(count));
                            assert(spec_parse_from(t, p0, pw, fm, d).0 =~= cmds_view(commands@)
                                + spec_parse_from(t, self@.position, pw, fm, d).0);
                        }
                    },
                    BraincrapToken::Comma(count) => {
                        commands.push(BraincrapCommand::Input(count));
                        proof {
                            lemma_cmds_view_push(pre_cmds, BraincrapCommand::Input(count));
                            assert(spec_parse_from(t, p0, pw, fm, d).0 =~= cmds_view(commands@)
                                + spec_parse_from(t, self@.position, pw, fm, d).0);
                        }
                    },
                    BraincrapToken::Hash => {
                        match self.next_token() {
                            Some(BraincrapToken::Char(name)) => {
                                match self.next_token() {
                                    Some(BraincrapToken::String(code_string)) => {
                                        let ghost body_chars = code_string@;
                                        let mut lexer = Lexer::new(code_string);
                                        let body_tokens = lexer.tokenize();
                                        let ghost pre_missing = self@.missing;
                                        let cmd = self.parse_macro(name, body_tokens);
                                        let ghost cmd_snapshot = cmd;
                                        commands.push(cmd);
                                        proof {
                                            let sub = spec_parse(
                                                spec_tokenize(body_chars),
                                                pw,
                                                fm,
                                                (d - 1) as nat,
                                            );
                                            lemma_cmds_view_push(pre_cmds, cmd_snapshot);
                                            lemma_missing_extend(m0, pre_missing, sub.1);
                                            assert(t[i + 1] == SpecToken::Name(name));
                                            assert(t[i + 2] == SpecToken::Text(body_chars));
                                            assert(spec_parse_from(t, p0, pw, fm, d).0
                                                =~= cmds_view(commands@) + spec_parse_from(
                                                t,
                                                self@.position,
                                                pw,
                                                fm,
                                                d,
                                            ).0);
                                            assert(spec_parse_from(t, p0, pw, fm, d).1
                                                =~= self@.missing.skip(m0.len() as int)
                                                + spec_parse_from(t, self@.position, pw, fm, d).1);
                                        }
                                    },
                                    Some(_) => {
                                        proof {
                                            assert(spec_parse_from(t, p0, pw, fm, d).0
                                                =~= cmds_view(commands@) + spec_parse_from(
                                                t,
                                                self@.position,
                                                pw,
                                                fm,
                                                d,
                                            ).0);
                                        }
                                    },
                                    None => {
                                        proof {
                                            assert(spec_parse_from(t, i + 3, pw, fm, d)
                                                == spec_parse_from(t, i + 2, pw, fm, d));
                                            assert(spec_parse_from(t, p0, pw, fm, d).0
                                                =~= cmds_view(commands@) + spec_parse_from(
                                                t,
                                                self@.position,
                                                pw,
                                                fm,
                                                d,
                                            ).0);
                                        }
                                    },
                                }
                            },
                            Some(_) => {
                                proof {
                                    assert(spec_parse_from(t, p0, pw, fm, d).0
                                        =~= cmds_view(commands@) + spec_parse_from(
                                        t,
                                        self@.position,
                                        pw,
                                        fm,
                                        d,
                                    ).0);
                                }
                            },
                            None => {
                                proof {
                                    assert(spec_parse_from(t, i + 2, pw, fm, d)
                                        == spec_parse_from(t, i + 1, pw, fm, d));
                                    assert(spec_parse_from(t, p0, pw, fm, d).0
                                        =~= cmds_view(commands@) + spec_parse_from(
                                        t,
                                        self@.position,
                                        pw,
                                        fm,
                                        d,
                                    ).0);
                                }
                            },
                        }
                    },
                    BraincrapToken::Dollar => {
                        match self.next_token() {
                            Some(BraincrapToken::String(filename)) => {
                                let ghost fname_chars = filename@;
                                let ghost pre_missing = self@.missing;
                                let cmd = self.parse_import(filename);
                                let ghost cmd_snapshot = cmd;
                                commands.push(cmd);
                                proof {
                                    let fpath = spec_path_join(pw, fname_chars);
                                    let known = fm.contains_key(fpath);
                                    let content = if known {
                                        fm[fpath]
                                    } else {
                                        Seq::<char>::empty()
                                    };
                                    let sub = spec_parse(
                                        spec_tokenize(content),
                                        spec_path_parent(fpath),
                                        fm,
                                        (d - 1) as nat,
                                    );
                                    let added = (if known {
                                        Seq::<Seq<char>>::empty()
                                    } else {
                                        seq![fpath]
                                    }) + sub.1;
                                    lemma_cmds_view_push(pre_cmds, cmd_snapshot);
                                    assert(self@.missing =~= pre_missing + added);
                                    lemma_missing_extend(m0, pre_missing, added);
                                    assert(t[i + 1] == SpecToken::Text(fname_chars));
                                    assert(spec_parse_from(t, p0, pw, fm, d).0
                                        =~= cmds_view(commands@) + spec_parse_from(
                                        t,
                                        self@.position,
                                        pw,
                                        fm,
                                        d,
                                    ).0);
                                    assert(self@.missing.skip(m0.len() as int)
                                        =~= pre_missing.skip(m0.len() as int) + added);
                                    assert(spec_parse_from(t, p0, pw, fm, d).1
                                        =~= self@.missing.skip(m0.len() as int)
                                        + spec_parse_from(t, self@.position, pw, fm, d).1);
                                }
                            },
                            Some(_) => {
                                proof {
                                    assert(spec_parse_from(t, p0, pw, fm, d).0
                                        =~= cmds_view(commands@) + spec_parse_from(
                                        t,
                                        self@.position,
                                        pw,
                                        fm,
                                        d,
                                    ).0);
                                }
                            },
                            None => {
                                proof {
                                    assert(spec_parse_from(t, i + 2, pw, fm, d)
                                        == spec_parse_from(t, i + 1, pw, fm, d));
                                    assert(spec_parse_from(t, p0, pw, fm, d).0
                                        =~= cmds_view(commands@) + spec_parse_from(
                                        t,
                                        self@.position,
                                        pw,
                                        fm,
                                        d,
                                    ).0);
                                }
                            },
                        }
                    },
                    BraincrapToken::Char(name) => {
                        commands.push(BraincrapCommand::RunMacro { name });
                        proof {
                            lemma_cmds_view_push(pre_cmds, BraincrapCommand::RunMacro { name });
                            assert(spec_parse_from(t, p0, pw, fm, d).0 =~= cmds_view(commands@)
                                + spec_parse_from(t, self@.position, pw, fm, d).0);
                        }
                    },
                    BraincrapToken::String(_) => {
                        proof {
                            assert(spec_parse_from(t, p0, pw, fm, d).0 =~= cmds_view(commands@)
                                + spec_parse_from(t, self@.position, pw, fm, d).0);
                        }
                    },
                },
            }
        }
        proof {
            assert(cmds_view(commands@) + Seq::<SpecCommand>::empty() =~= cmds_view(commands@));
        }
        commands
    }
}

} // verus!

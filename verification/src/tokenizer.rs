//! Lexical analysis: turns raw source text into a flat token sequence.
//!
//! Runs of the six repeatable operator characters (`+ - < > . ,`) are
//! run-length compressed into a single token carrying the repeat count.
//! `[` and `]` each give one token. `;` starts a line comment. `#` introduces
//! a macro definition (marker, one-character name, body text up to the end of
//! the line), `$` an import directive (marker, filename). Any other character
//! that could serve as a macro name becomes a name token; the rest are
//! skipped.
//!
//! The mathematical model is [`spec_tokenize`], a recursive function over the
//! source as a `Seq<char>`; [`Lexer::tokenize`] is proved to produce exactly
//! its value.

use vstd::prelude::*;
use vstd::string::{StrSliceExecFns, StringExecFns};

verus! {

/// One lexical unit. Repeated operator characters collapse into one token
/// carrying the repeat count (at least 1).
#[derive(Debug, PartialEq, PartialOrd)]
pub enum BraincrapToken {
    Plus(usize),
    Minus(usize),
    Left(usize),
    Right(usize),
    LeftBracket,
    RightBracket,
    Dot(usize),
    Comma(usize),
    Hash,
    Dollar,
    /// A raw substring of the source: a macro body or an import filename.
    String(String),
    /// A single character: a macro name.
    Char(char),
}

/// The mathematical shape of a token: counts as `nat`, text as `Seq<char>`.
pub ghost enum SpecToken {
    Plus(nat),
    Minus(nat),
    Left(nat),
    Right(nat),
    LeftBracket,
    RightBracket,
    Dot(nat),
    Comma(nat),
    Hash,
    Dollar,
    Text(Seq<char>),
    Name(char),
}

impl Clone for BraincrapToken {
    /// A clone is equal to the original token.
    fn clone(&self) -> (r: Self)
        ensures
            r == *self,
    {
        match self {
            BraincrapToken::Plus(n) => BraincrapToken::Plus(*n),
            BraincrapToken::Minus(n) => BraincrapToken::Minus(*n),
            BraincrapToken::Left(n) => BraincrapToken::Left(*n),
            BraincrapToken::Right(n) => BraincrapToken::Right(*n),
            BraincrapToken::LeftBracket => BraincrapToken::LeftBracket,
            BraincrapToken::RightBracket => BraincrapToken::RightBracket,
            BraincrapToken::Dot(n) => BraincrapToken::Dot(*n),
            BraincrapToken::Comma(n) => BraincrapToken::Comma(*n),
            BraincrapToken::Hash => BraincrapToken::Hash,
            BraincrapToken::Dollar => BraincrapToken::Dollar,
            BraincrapToken::String(s) => BraincrapToken::String(s.clone()),
            BraincrapToken::Char(c) => BraincrapToken::Char(*c),
        }
    }
}

/// The model of one token.
pub open spec fn token_view(t: BraincrapToken) -> SpecToken {
    match t {
        BraincrapToken::Plus(n) => SpecToken::Plus(n as nat),
        BraincrapToken::Minus(n) => SpecToken::Minus(n as nat),
        BraincrapToken::Left(n) => SpecToken::Left(n as nat),
        BraincrapToken::Right(n) => SpecToken::Right(n as nat),
        BraincrapToken::LeftBracket => SpecToken::LeftBracket,
        BraincrapToken::RightBracket => SpecToken::RightBracket,
        BraincrapToken::Dot(n) => SpecToken::Dot(n as nat),
        BraincrapToken::Comma(n) => SpecToken::Comma(n as nat),
        BraincrapToken::Hash => SpecToken::Hash,
        BraincrapToken::Dollar => SpecToken::Dollar,
        BraincrapToken::String(s) => SpecToken::Text(s@),
        BraincrapToken::Char(c) => SpecToken::Name(c),
    }
}

/// The model of a token sequence.
pub open spec fn tokens_view(ts: Seq<BraincrapToken>) -> Seq<SpecToken> {
    ts.map_values(|t: BraincrapToken| token_view(t))
}

/// Characters that cannot serve as macro names: the eight operator
/// characters and common whitespace and control characters.
pub open spec fn is_illegal_name(c: char) -> bool {
    c == '+' || c == '-' || c == '>' || c == '<' || c == '.' || c == ',' || c == '[' || c == ']'
        || c == ' ' || c == '\t' || c == '\n' || c == '\r' || c == '\x0C' || c == '\x1B'
}

/// Exec twin of [`is_illegal_name`].
fn is_illegal_name_char(c: char) -> (r: bool)
    ensures
        r == is_illegal_name(c),
{
    c == '+' || c == '-' || c == '>' || c == '<' || c == '.' || c == ',' || c == '[' || c == ']'
        || c == ' ' || c == '\t' || c == '\n' || c == '\r' || c == '\x0C' || c == '\x1B'
}

/// What `char::is_whitespace` returns: the Unicode `White_Space` property,
/// a function of the character alone.
pub uninterp spec fn is_unicode_space(c: char) -> bool;

/// Relies on `char::is_whitespace`: true exactly when the character has the
/// Unicode `White_Space` property, which depends on the character alone.
pub assume_specification[ char::is_whitespace ](c: char) -> (r: bool)
    ensures
        r == is_unicode_space(c),
;

/// The character at position `i`, or the NUL character when `i` is out of
/// range (the scanner treats the end of input as an endless run of NUL).
pub open spec fn char_at(s: Seq<char>, i: int) -> char {
    if 0 <= i < s.len() {
        s[i]
    } else {
        '\0'
    }
}

/// The first position at or after `i` that ends a run of the character `c`:
/// the first `j >= i` with `j == s.len()` or `s[j] != c` (and `j == i`
/// whenever `i` is out of range).
pub open spec fn run_end(s: Seq<char>, i: int, c: char) -> int
    decreases s.len() - i,
{
    if i < 0 || i >= s.len() {
        i
    } else if s[i] != c {
        i
    } else {
        run_end(s, i + 1, c)
    }
}

/// The first position at or after `i` holding a newline, or `s.len()` if
/// there is none (and `i` itself whenever `i` is out of range).
pub open spec fn line_end(s: Seq<char>, i: int) -> int
    decreases s.len() - i,
{
    if i < 0 || i >= s.len() {
        i
    } else if s[i] == '\n' {
        i
    } else {
        line_end(s, i + 1)
    }
}

/// The first position at or after `i` holding a whitespace character, or
/// `s.len()` if there is none (and `i` itself whenever `i` is out of range).
pub open spec fn space_end(s: Seq<char>, i: int) -> int
    decreases s.len() - i,
{
    if i < 0 || i >= s.len() {
        i
    } else if is_unicode_space(s[i]) {
        i
    } else {
        space_end(s, i + 1)
    }
}

/// A position that ends a run and is preceded only by run characters is
/// exactly [`run_end`].
pub proof fn lemma_run_end_is(s: Seq<char>, i: int, j: int, c: char)
    requires
        0 <= i <= j <= s.len(),
        forall|k: int| i <= k < j ==> s[k] == c,
        j == s.len() || s[j] != c,
    ensures
        run_end(s, i, c) == j,
    decreases j - i,
{
    if i < j {
        lemma_run_end_is(s, i + 1, j, c);
    }
}

/// A newline (or end of input) preceded only by other characters is exactly
/// [`line_end`].
pub proof fn lemma_line_end_is(s: Seq<char>, i: int, j: int)
    requires
        0 <= i <= j <= s.len(),
        forall|k: int| i <= k < j ==> s[k] != '\n',
        j == s.len() || s[j] == '\n',
    ensures
        line_end(s, i) == j,
    decreases j - i,
{
    if i < j {
        lemma_line_end_is(s, i + 1, j);
    }
}

/// A whitespace character (or end of input) preceded only by non-whitespace
/// is exactly [`space_end`].
pub proof fn lemma_space_end_is(s: Seq<char>, i: int, j: int)
    requires
        0 <= i <= j <= s.len(),
        forall|k: int| i <= k < j ==> !is_unicode_space(s[k]),
        j == s.len() || is_unicode_space(s[j]),
    ensures
        space_end(s, i) == j,
    decreases j - i,
{
    if i < j {
        lemma_space_end_is(s, i + 1, j);
    }
}

/// Bounds and characterization of [`run_end`].
pub proof fn lemma_run_end(s: Seq<char>, i: int, c: char)
    requires
        0 <= i <= s.len(),
    ensures
        i <= run_end(s, i, c) <= s.len(),
        forall|k: int| i <= k < run_end(s, i, c) ==> s[k] == c,
        run_end(s, i, c) < s.len() ==> s[run_end(s, i, c)] != c,
    decreases s.len() - i,
{
    if i < s.len() && s[i] == c {
        lemma_run_end(s, i + 1, c);
    }
}

/// Bounds and characterization of [`line_end`].
pub proof fn lemma_line_end(s: Seq<char>, i: int)
    requires
        0 <= i <= s.len(),
    ensures
        i <= line_end(s, i) <= s.len(),
        forall|k: int| i <= k < line_end(s, i) ==> s[k] != '\n',
        line_end(s, i) < s.len() ==> s[line_end(s, i)] == '\n',
    decreases s.len() - i,
{
    if i < s.len() && s[i] != '\n' {
        lemma_line_end(s, i + 1);
    }
}

/// Bounds and characterization of [`space_end`].
pub proof fn lemma_space_end(s: Seq<char>, i: int)
    requires
        0 <= i <= s.len(),
    ensures
        i <= space_end(s, i) <= s.len(),
        forall|k: int| i <= k < space_end(s, i) ==> !is_unicode_space(s[k]),
        space_end(s, i) < s.len() ==> is_unicode_space(s[space_end(s, i)]),
    decreases s.len() - i,
{
    if i < s.len() && !is_unicode_space(s[i]) {
        lemma_space_end(s, i + 1);
    }
}

/// The token for a run of `n` copies of the repeatable operator `c`.
pub open spec fn run_token(c: char, n: nat) -> SpecToken {
    if c == '+' {
        SpecToken::Plus(n)
    } else if c == '-' {
        SpecToken::Minus(n)
    } else if c == '<' {
        SpecToken::Left(n)
    } else if c == '>' {
        SpecToken::Right(n)
    } else if c == '.' {
        SpecToken::Dot(n)
    } else {
        SpecToken::Comma(n)
    }
}

/// The tokens of the source suffix that starts at position `i`.
///
/// This is the model of the scan: each step consumes one construct exactly as
/// the lexer does and recurses at the position where the lexer's cursor lands
/// (clamped to the end of input).
pub open spec fn spec_tokenize_from(s: Seq<char>, i: int) -> Seq<SpecToken>
    decreases s.len() - i,
{
    if i < 0 || i >= s.len() {
        Seq::empty()
    } else {
        let c = s[i];
        if c == '$' {
            let j = space_end(s, i + 1);
            proof {
                lemma_space_end(s, i + 1);
            }
            seq![SpecToken::Dollar, SpecToken::Text(s.subrange(i + 1, j))]
                + spec_tokenize_from(s, j)
        } else if c == '#' {
            let raw = char_at(s, i + 1);
            let name = if is_illegal_name(raw) {
                'e'
            } else {
                raw
            };
            let j = line_end(s, i + 3);
            let body = if i + 3 >= s.len() {
                Seq::<char>::empty()
            } else {
                s.subrange(i + 3, j)
            };
            let nxt = if j < s.len() {
                j + 1
            } else {
                s.len() as int
            };
            proof {
                if i + 3 <= s.len() {
                    lemma_line_end(s, i + 3);
                }
            }
            seq![SpecToken::Hash, SpecToken::Name(name), SpecToken::Text(body)]
                + spec_tokenize_from(s, nxt)
        } else if c == ';' {
            proof {
                lemma_line_end(s, i);
            }
            spec_tokenize_from(s, line_end(s, i))
        } else if c == '+' || c == '-' || c == '<' || c == '>' || c == '.' || c == ',' {
            let j = run_end(s, i, c);
            proof {
                lemma_run_end(s, i, c);
            }
            seq![run_token(c, (j - i) as nat)] + spec_tokenize_from(s, j)
        } else if c == '[' {
            seq![SpecToken::LeftBracket] + spec_tokenize_from(s, i + 1)
        } else if c == ']' {
            seq![SpecToken::RightBracket] + spec_tokenize_from(s, i + 1)
        } else if is_illegal_name(c) {
            spec_tokenize_from(s, i + 1)
        } else {
            seq![SpecToken::Name(c)] + spec_tokenize_from(s, i + 1)
        }
    }
}

/// The tokens of a whole source text.
pub open spec fn spec_tokenize(s: Seq<char>) -> Seq<SpecToken> {
    spec_tokenize_from(s, 0)
}

/// Pushing a token commutes with taking the sequence's model.
pub proof fn lemma_tokens_view_push(ts: Seq<BraincrapToken>, t: BraincrapToken)
    ensures
        tokens_view(ts.push(t)) == tokens_view(ts).push(token_view(t)),
{
    assert(tokens_view(ts.push(t)) =~= tokens_view(ts).push(token_view(t)));
}

/// The run-length token for the repeatable operator `c`.
fn op_token(c: char, count: usize) -> (t: BraincrapToken)
    requires
        c == '+' || c == '-' || c == '<' || c == '>' || c == '.' || c == ',',
    ensures
        token_view(t) == run_token(c, count as nat),
{
    if c == '+' {
        BraincrapToken::Plus(count)
    } else if c == '-' {
        BraincrapToken::Minus(count)
    } else if c == '<' {
        BraincrapToken::Left(count)
    } else if c == '>' {
        BraincrapToken::Right(count)
    } else if c == '.' {
        BraincrapToken::Dot(count)
    } else {
        BraincrapToken::Comma(count)
    }
}

/// The lexer's abstract state: the source text and the cursor position.
pub ghost struct LexerView {
    pub input: Seq<char>,
    pub index: int,
}

/// A cursor over the source text that produces [`BraincrapToken`]s.
pub struct Lexer {
    /// The current position within the input, as a character index.
    index: usize,
    /// The source code being scanned.
    input: String,
}

impl View for Lexer {
    type V = LexerView;

    closed spec fn view(&self) -> LexerView {
        LexerView {
            input: self.input@,
            index: if self.index as int <= self.input@.len() {
                self.index as int
            } else {
                self.input@.len() as int
            },
        }
    }
}

impl Lexer {
    /// Creates a lexer at the start of `input`.
    pub fn new(input: String) -> (l: Lexer)
        ensures
            l@.input == input@,
            l@.index == 0,
    {
        Lexer { index: 0, input }
    }

    /// The character under the cursor, or NUL past the end of the input.
    fn current_char(&self) -> (c: char)
        ensures
            c == char_at(self@.input, self@.index),
    {
        let n = self.input.as_str().unicode_len();
        if self.index < n {
            self.input.as_str().get_char(self.index)
        } else {
            '\0'
        }
    }

    /// Advances the cursor to the end of the run of `c` that starts at the
    /// cursor and returns the run's length.
    #[verifier::loop_isolation(false)]
    fn run_length(&mut self, c: char) -> (count: usize)
        requires
            c != '\0',
            old(self).index as int <= old(self)@.input.len(),
        ensures
            final(self)@.input == old(self)@.input,
            final(self)@.index == run_end(old(self)@.input, old(self)@.index, c),
            count == final(self)@.index - old(self)@.index,
            final(self).index as int == final(self)@.index,
    {
        let ghost s = self@.input;
        let ghost i0 = self@.index;
        let n = self.input.as_str().unicode_len();
        let mut count: usize = 0;
        while self.current_char() == c
            invariant
                self@.input == s,
                n as int == s.len(),
                i0 <= self.index as int <= s.len(),
                count as int == self.index as int - i0,
                forall|k: int| i0 <= k < self.index as int ==> s[k] == c,
            decreases s.len() - self.index as int,
        {
            self.index += 1;
            count += 1;
        }
        proof {
            lemma_run_end_is(s, i0, self.index as int, c);
        }
        count
    }

    /// Scans the whole input from the cursor onward, producing the token
    /// sequence that [`spec_tokenize_from`] describes and leaving the cursor
    /// at the end of the input.
    #[verifier::loop_isolation(false)]
    #[verifier::rlimit(60)]
    pub fn tokenize(&mut self) -> (tokens: Vec<BraincrapToken>)
        ensures
            tokens_view(tokens@) == spec_tokenize_from(old(self)@.input, old(self)@.index),
            final(self)@.input == old(self)@.input,
            final(self)@.index == old(self)@.input.len(),
    {
        let ghost s = self@.input;
        let ghost start_index = self@.index;
        let n = self.input.as_str().unicode_len();
        if self.index > n {
            // Normalise a cursor that an earlier scan left past the end.
            self.index = n;
        }
        let mut tokens: Vec<BraincrapToken> = Vec::new();
        proof {
            assert(tokens_view(tokens@) =~= Seq::<SpecToken>::empty());
        }
        while self.index < n
            invariant
                self.index <= n,
                self@.input == s,
                tokens_view(tokens@) + spec_tokenize_from(s, self@.index) == spec_tokenize_from(
                    s,
                    start_index,
                ),
            decreases n - self.index,
        {
            let ghost i = self@.index;
            let ghost pre = tokens@;
            let c = self.current_char();
            if c == '$' {
                self.index += 1;
                let start = self.index;
                while self.index < n && !self.current_char().is_whitespace()
                    invariant
                        start <= self.index <= n,
                        self@.input == s,
                        forall|k: int|
                            start as int <= k < self.index as int ==> !is_unicode_space(s[k]),
                    decreases n - self.index,
                {
                    self.index += 1;
                }
                proof {
                    lemma_space_end_is(s, start as int, self.index as int);
                }
                let fname = self.input.as_str().substring_char(start, self.index);
                let fname_token = BraincrapToken::String(String::from_str(fname));
                let ghost fname_snapshot = fname_token;
                tokens.push(BraincrapToken::Dollar);
                tokens.push(fname_token);
                proof {
                    lemma_tokens_view_push(pre, BraincrapToken::Dollar);
                    lemma_tokens_view_push(pre.push(BraincrapToken::Dollar), fname_snapshot);
                    assert(tokens_view(tokens@) + spec_tokenize_from(s, self@.index)
                        =~= spec_tokenize_from(s, start_index));
                }
            } else if c == '#' {
                self.index += 1;
                let raw_name = self.current_char();
                let macro_name = if is_illegal_name_char(raw_name) {
                    'e'
                } else {
                    raw_name
                };
                if n - self.index >= 2 {
                    self.index += 2;
                } else {
                    self.index = n;
                }
                let start = self.index;
                while self.index < n && self.current_char() != '\n'
                    invariant
                        start <= self.index <= n,
                        self@.input == s,
                        forall|k: int| start as int <= k < self.index as int ==> s[k] != '\n',
                    decreases n - self.index,
                {
                    self.index += 1;
                }
                let ghost scan_end = self.index as int;
                let body = self.input.as_str().substring_char(start, self.index);
                let body_token = BraincrapToken::String(String::from_str(body));
                let ghost body_snapshot = body_token;
                tokens.push(BraincrapToken::Hash);
                tokens.push(BraincrapToken::Char(macro_name));
                tokens.push(body_token);
                if self.index < n {
                    self.index += 1;
                }
                proof {
                    lemma_tokens_view_push(pre, BraincrapToken::Hash);
                    lemma_tokens_view_push(
                        pre.push(BraincrapToken::Hash),
                        BraincrapToken::Char(macro_name),
                    );
                    lemma_tokens_view_push(
                        pre.push(BraincrapToken::Hash).push(BraincrapToken::Char(macro_name)),
                        body_snapshot,
                    );
                    let j = line_end(s, i + 3);
                    assert(macro_name == if is_illegal_name(char_at(s, i + 1)) {
                        'e'
                    } else {
                        char_at(s, i + 1)
                    });
                    if i + 3 <= s.len() {
                        assert(start as int == i + 3);
                        lemma_line_end_is(s, i + 3, scan_end);
                        assert(j == scan_end);
                        if i + 3 == s.len() {
                            assert(body@ =~= Seq::<char>::empty());
                        }
                    } else {
                        assert(start as int == s.len());
                        assert(scan_end == s.len());
                        assert(j == i + 3);
                        assert(body@ =~= Seq::<char>::empty());
                    }
                    assert(self@.index == if j < s.len() {
                        j + 1
                    } else {
                        s.len() as int
                    });
                    assert(token_view(body_snapshot) == SpecToken::Text(
                        if i + 3 >= s.len() {
                            Seq::<char>::empty()
                        } else {
                            s.subrange(i + 3, j)
                        },
                    ));
                    assert(tokens_view(tokens@) + spec_tokenize_from(s, self@.index)
                        =~= spec_tokenize_from(s, start_index));
                }
            } else if c == ';' {
                while self.index < n && self.current_char() != '\n'
                    invariant
                        i <= self.index as int <= n,
                        self@.input == s,
                        forall|k: int| i <= k < self.index as int ==> s[k] != '\n',
                    decreases n - self.index,
                {
                    self.index += 1;
                }
                proof {
                    lemma_line_end_is(s, i, self.index as int);
                }
            } else if c == '+' || c == '-' || c == '<' || c == '>' || c == '.' || c == ',' {
                let count = self.run_length(c);
                let t = op_token(c, count);
                tokens.push(t);
                proof {
                    lemma_run_end(s, i, c);
                    lemma_tokens_view_push(pre, t);
                    assert(s[i] == c);
                    assert(self@.index == run_end(s, i, c));
                    assert(spec_tokenize_from(s, i) == seq![
                        run_token(c, (run_end(s, i, c) - i) as nat),
                    ] + spec_tokenize_from(s, run_end(s, i, c)));
                    assert(tokens_view(tokens@) == tokens_view(pre).push(token_view(t)));
                    assert(tokens_view(tokens@) + spec_tokenize_from(s, self@.index)
                        =~= spec_tokenize_from(s, start_index));
                }
            } else if c == '[' {
                tokens.push(BraincrapToken::LeftBracket);
                self.index += 1;
                proof {
                    lemma_tokens_view_push(pre, BraincrapToken::LeftBracket);
                    assert(tokens_view(tokens@) + spec_tokenize_from(s, self@.index)
                        =~= spec_tokenize_from(s, start_index));
                }
            } else if c == ']' {
                tokens.push(BraincrapToken::RightBracket);
                self.index += 1;
                proof {
                    lemma_tokens_view_push(pre, BraincrapToken::RightBracket);
                    assert(tokens_view(tokens@) + spec_tokenize_from(s, self@.index)
                        =~= spec_tokenize_from(s, start_index));
                }
            } else {
                if !is_illegal_name_char(c) {
                    tokens.push(BraincrapToken::Char(c));
                    proof {
                        lemma_tokens_view_push(pre, BraincrapToken::Char(c));
                    }
                }
                self.index += 1;
                proof {
                    assert(tokens_view(tokens@) + spec_tokenize_from(s, self@.index)
                        =~= spec_tokenize_from(s, start_index));
                }
            }
        }
        proof {
            assert(spec_tokenize_from(s, self@.index) =~= Seq::<SpecToken>::empty());
            assert(tokens_view(tokens@) =~= tokens_view(tokens@) + Seq::<SpecToken>::empty());
        }
        tokens
    }
}

} // verus!

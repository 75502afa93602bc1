//! Turning the words of a command line into a pipeline of commands with
//! their redirections.

use vstd::prelude::*;
use crate::text::chars_of;
use crate::state::{Environment, expand_word, expanded_word};

verus! {

broadcast use vstd::string::group_string_axioms;

/// One stage of a pipeline: its expanded arguments, its redirections, and
/// whether the whole line is being benchmarked.
#[derive(Debug, Clone)]
pub struct CommandExecution {
    pub args: Vec<String>,
    pub input_file: Option<String>,
    pub output_file: Option<String>,
    pub append: bool,
    pub bench: bool,
}

/// The mathematical value of a `CommandExecution`.
pub struct SpecCommand {
    pub args: Seq<Seq<char>>,
    pub input_file: Option<Seq<char>>,
    pub output_file: Option<Seq<char>>,
    pub append: bool,
    pub bench: bool,
}

/// The characters of an optional string.
pub open spec fn opt_chars(o: Option<String>) -> Option<Seq<char>> {
    match o {
        Some(s) => Some(s@),
        None => None,
    }
}

/// The characters of each string.
pub open spec fn strings_view(v: Seq<String>) -> Seq<Seq<char>> {
    v.map_values(|s: String| s@)
}

impl View for CommandExecution {
    type V = SpecCommand;

    open spec fn view(&self) -> SpecCommand {
        SpecCommand {
            args: strings_view(self.args@),
            input_file: opt_chars(self.input_file),
            output_file: opt_chars(self.output_file),
            append: self.append,
            bench: self.bench,
        }
    }
}

/// The commands, each by its value.
pub open spec fn commands_view(v: Seq<CommandExecution>) -> Seq<SpecCommand> {
    v.map_values(|c: CommandExecution| c@)
}

/// What a word means to the pipeline parser.
pub enum Token {
    Pipe,
    Output,
    Append,
    Input,
    Word,
}

/// The meaning of the word `w`: one of the operators `|`, `>`, `>>`, `<`,
/// or an ordinary word.
pub open spec fn token_of(w: Seq<char>) -> Token {
    if w == seq!['|'] {
        Token::Pipe
    } else if w == seq!['>'] {
        Token::Output
    } else if w == seq!['>', '>'] {
        Token::Append
    } else if w == seq!['<'] {
        Token::Input
    } else {
        Token::Word
    }
}

/// The word that marks a benchmarked line when it comes first.
pub open spec fn bench_word() -> Seq<char> {
    seq!['b', 'e', 'n', 'c', 'h']
}

/// A command with nothing in it yet.
pub open spec fn empty_command(bench: bool) -> SpecCommand {
    SpecCommand {
        args: Seq::empty(),
        input_file: None,
        output_file: None,
        append: false,
        bench,
    }
}

/// Whether a command holds anything worth running or redirecting.
pub open spec fn has_content(c: SpecCommand) -> bool {
    c.args.len() > 0 || c.input_file is Some || c.output_file is Some
}

/// Reads the words `ws` into the commands finished so far (`done`) and the one
/// being built (`cur`): `|` finishes the current command and starts an empty
/// one; `>`, `>>` and `<` take the next word as a file (and do nothing at the
/// end of the line); any other word is expanded and added as an argument.
pub open spec fn parse_from(
    ws: Seq<Seq<char>>,
    done: Seq<SpecCommand>,
    cur: SpecCommand,
    home: Option<Seq<char>>,
    vars: Seq<(Seq<char>, Seq<char>)>,
) -> (Seq<SpecCommand>, SpecCommand)
    decreases ws.len(),
{
    if ws.len() == 0 {
        (done, cur)
    } else {
        match token_of(ws[0]) {
            Token::Pipe => parse_from(ws.drop_first(), done.push(cur), empty_command(cur.bench), home, vars),
            Token::Output => if ws.len() >= 2 {
                parse_from(
                    ws.skip(2),
                    done,
                    SpecCommand { output_file: Some(expanded_word(ws[1], home, vars)), ..cur },
                    home,
                    vars,
                )
            } else {
                (done, cur)
            },
            Token::Append => if ws.len() >= 2 {
                parse_from(
                    ws.skip(2),
                    done,
                    SpecCommand {
                        output_file: Some(expanded_word(ws[1], home, vars)),
                        append: true,
                        ..cur
                    },
                    home,
                    vars,
                )
            } else {
                (done, cur)
            },
            Token::Input => if ws.len() >= 2 {
                parse_from(
                    ws.skip(2),
                    done,
                    SpecCommand { input_file: Some(expanded_word(ws[1], home, vars)), ..cur },
                    home,
                    vars,
                )
            } else {
                (done, cur)
            },
            Token::Word => parse_from(
                ws.drop_first(),
                done,
                SpecCommand { args: cur.args.push(expanded_word(ws[0], home, vars)), ..cur },
                home,
                vars,
            ),
        }
    }
}

/// Whether the line is benchmarked: its first word is `bench`.
pub open spec fn is_bench_line(words: Seq<Seq<char>>) -> bool {
    words.len() > 0 && words[0] == bench_word()
}

/// The words of a line that make up its pipeline: all of them, less a
/// leading `bench`.
pub open spec fn line_words(words: Seq<Seq<char>>) -> Seq<Seq<char>> {
    if is_bench_line(words) {
        words.drop_first()
    } else {
        words
    }
}

/// The pipeline that the words `ws` describe, each command carrying the
/// benchmark flag `bench`; the last command is kept only when it has
/// arguments or a redirection.
pub open spec fn parse_pipeline(
    ws: Seq<Seq<char>>,
    bench: bool,
    home: Option<Seq<char>>,
    vars: Seq<(Seq<char>, Seq<char>)>,
) -> Seq<SpecCommand> {
    let (done, last) = parse_from(ws, Seq::empty(), empty_command(bench), home, vars);
    if has_content(last) {
        done.push(last)
    } else {
        done
    }
}

/// The pipeline that the words `words` describe. A leading `bench` is dropped
/// and marks every command.
pub open spec fn parse_spec(
    words: Seq<Seq<char>>,
    home: Option<Seq<char>>,
    vars: Seq<(Seq<char>, Seq<char>)>,
) -> Seq<SpecCommand> {
    parse_pipeline(line_words(words), is_bench_line(words), home, vars)
}

/// The meaning of the word `w`.
pub fn token(w: &String) -> (t: Token)
    ensures
        t == token_of(w@),
{
    let cs = chars_of(w.as_str());
    if cs.len() == 1 && cs[0] == '|' {
        assert(cs@ == seq!['|']);
        Token::Pipe
    } else if cs.len() == 1 && cs[0] == '>' {
        assert(cs@ == seq!['>']);
        Token::Output
    } else if cs.len() == 2 && cs[0] == '>' && cs[1] == '>' {
        assert(cs@ == seq!['>', '>']);
        Token::Append
    } else if cs.len() == 1 && cs[0] == '<' {
        assert(cs@ == seq!['<']);
        Token::Input
    } else {
        Token::Word
    }
}

/// Whether `w` is the word `bench`.
fn is_bench_word(w: &String) -> (b: bool)
    ensures
        b == (w@ == bench_word()),
{
    let cs = chars_of(w.as_str());
    if cs.len() == 5 && cs[0] == 'b' && cs[1] == 'e' && cs[2] == 'n' && cs[3] == 'c' && cs[4] == 'h' {
        assert(cs@ == bench_word());
        true
    } else {
        false
    }
}

/// A command with nothing in it yet.
fn new_command(bench: bool) -> (c: CommandExecution)
    ensures
        c@ == empty_command(bench),
{
    let c = CommandExecution {
        args: Vec::new(),
        input_file: None,
        output_file: None,
        append: false,
        bench,
    };
    assert(c@.args == Seq::<Seq<char>>::empty());
    c
}

/// Splits the words of a command line into the commands of a pipeline,
/// expanding each argument and file name in `env`.
pub fn parse_commands(words: Vec<String>, env: &Environment) -> (cmds: Vec<CommandExecution>)
    ensures
        commands_view(cmds@) == parse_spec(strings_view(words@), env.home_chars(), env.var_list()),
{
    let ghost home = env.home_chars();
    let ghost vars = env.var_list();
    let ghost ws = strings_view(words@);
    let n = words.len();
    let mut cmds: Vec<CommandExecution> = Vec::new();
    let mut is_bench = false;
    let mut i: usize = 0;
    if n > 0 && is_bench_word(&words[0]) {
        is_bench = true;
        i = 1;
    }
    assert(is_bench == is_bench_line(ws));
    let ghost rest = if is_bench { ws.drop_first() } else { ws };
    assert(rest == ws.skip(i as int));
    let mut cur = new_command(is_bench);
    assert(commands_view(cmds@) == Seq::<SpecCommand>::empty());
    while i < n
        invariant
            i <= n,
            n == words.len(),
            ws == strings_view(words@),
            home == env.home_chars(),
            vars == env.var_list(),
            cur@.bench == is_bench,
            parse_from(rest, Seq::empty(), empty_command(is_bench), home, vars)
                == parse_from(ws.skip(i as int), commands_view(cmds@), cur@, home, vars),
        decreases n - i,
    {
        let ghost tail = ws.skip(i as int);
        let ghost done_before = commands_view(cmds@);
        let ghost cur_before = cur@;
        assert(tail[0] == words@[i as int]@);
        assert(tail.drop_first() == ws.skip(i + 1));
        match token(&words[i]) {
            Token::Pipe => {
                let finished = cur;
                cur = new_command(is_bench);
                cmds.push(finished);
                assert(commands_view(cmds@) == done_before.push(cur_before));
                i = i + 1;
            },
            Token::Output => {
                if i + 1 < n {
                    assert(tail[1] == words@[i + 1]@);
                    assert(tail.skip(2) == ws.skip(i + 2));
                    let f = expand_word(words[i + 1].as_str(), env);
                    cur.output_file = Some(f);
                    i = i + 2;
                } else {
                    assert(ws.skip(n as int) == Seq::<Seq<char>>::empty());
                    i = n;
                }
            },
            Token::Append => {
                if i + 1 < n {
                    assert(tail[1] == words@[i + 1]@);
                    assert(tail.skip(2) == ws.skip(i + 2));
                    let f = expand_word(words[i + 1].as_str(), env);
                    cur.output_file = Some(f);
                    cur.append = true;
                    i = i + 2;
                } else {
                    assert(ws.skip(n as int) == Seq::<Seq<char>>::empty());
                    i = n;
                }
            },
            Token::Input => {
                if i + 1 < n {
                    assert(tail[1] == words@[i + 1]@);
                    assert(tail.skip(2) == ws.skip(i + 2));
                    let f = expand_word(words[i + 1].as_str(), env);
                    cur.input_file = Some(f);
                    i = i + 2;
                } else {
                    assert(ws.skip(n as int) == Seq::<Seq<char>>::empty());
                    i = n;
                }
            },
            Token::Word => {
                let a = expand_word(words[i].as_str(), env);
                cur.args.push(a);
                assert(cur@.args == cur_before.args.push(a@));
                i = i + 1;
            },
        }
    }
    assert(ws.skip(n as int) == Seq::<Seq<char>>::empty());
    if !cur.args.is_empty() || cur.input_file.is_some() || cur.output_file.is_some() {
        cmds.push(cur);
    }
    cmds
}

/// What holds of every command the parser builds on a line whose benchmark
/// flag is `bench`.
pub open spec fn command_ok(c: SpecCommand, bench: bool) -> bool {
    &&& c.bench == bench
    &&& c.append ==> c.output_file is Some
}

proof fn lemma_parse_from_keeps(
    ws: Seq<Seq<char>>,
    done: Seq<SpecCommand>,
    cur: SpecCommand,
    bench: bool,
    home: Option<Seq<char>>,
    vars: Seq<(Seq<char>, Seq<char>)>,
)
    requires
        forall|i: int| 0 <= i < done.len() ==> command_ok(#[trigger] done[i], bench),
        command_ok(cur, bench),
    ensures
        ({
            let (d, c) = parse_from(ws, done, cur, home, vars);
            &&& forall|i: int| 0 <= i < d.len() ==> command_ok(#[trigger] d[i], bench)
            &&& command_ok(c, bench)
        }),
    decreases ws.len(),
{
    if ws.len() > 0 {
        match token_of(ws[0]) {
            Token::Pipe => {
                let d2 = done.push(cur);
                assert forall|i: int| 0 <= i < d2.len() implies command_ok(#[trigger] d2[i], bench) by {
                    if i < done.len() {
                        assert(d2[i] == done[i]);
                    }
                }
                lemma_parse_from_keeps(ws.drop_first(), d2, empty_command(cur.bench), bench, home, vars);
            },
            Token::Output => if ws.len() >= 2 {
                lemma_parse_from_keeps(
                    ws.skip(2),
                    done,
                    SpecCommand { output_file: Some(expanded_word(ws[1], home, vars)), ..cur },
                    bench,
                    home,
                    vars,
                );
            },
            Token::Append => if ws.len() >= 2 {
                lemma_parse_from_keeps(
                    ws.skip(2),
                    done,
                    SpecCommand {
                        output_file: Some(expanded_word(ws[1], home, vars)),
                        append: true,
                        ..cur
                    },
                    bench,
                    home,
                    vars,
                );
            },
            Token::Input => if ws.len() >= 2 {
                lemma_parse_from_keeps(
                    ws.skip(2),
                    done,
                    SpecCommand { input_file: Some(expanded_word(ws[1], home, vars)), ..cur },
                    bench,
                    home,
                    vars,
                );
            },
            Token::Word => {
                lemma_parse_from_keeps(
                    ws.drop_first(),
                    done,
                    SpecCommand { args: cur.args.push(expanded_word(ws[0], home, vars)), ..cur },
                    bench,
                    home,
                    vars,
                );
            },
        }
    }
}

/// Every command of a line carries the line's benchmark flag (set exactly
/// when the first word is `bench`), and a command appends only to an output
/// file it has.
pub proof fn law_commands_well_formed(
    words: Seq<Seq<char>>,
    home: Option<Seq<char>>,
    vars: Seq<(Seq<char>, Seq<char>)>,
)
    ensures
        forall|i: int|
            0 <= i < parse_spec(words, home, vars).len() ==> command_ok(
                #[trigger] parse_spec(words, home, vars)[i],
                is_bench_line(words),
            ),
{
    let bench = is_bench_line(words);
    let rest = if bench { words.drop_first() } else { words };
    lemma_parse_from_keeps(rest, Seq::empty(), empty_command(bench), bench, home, vars);
    let (done, last) = parse_from(rest, Seq::empty(), empty_command(bench), home, vars);
    if has_content(last) {
        let r = done.push(last);
        assert forall|i: int| 0 <= i < r.len() implies command_ok(#[trigger] r[i], bench) by {
            if i < done.len() {
                assert(r[i] == done[i]);
            }
        }
    }
}

/// A word that is no operator and that expansion leaves as it is.
pub open spec fn is_plain_word(w: Seq<char>) -> bool {
    &&& token_of(w) is Word
    &&& !w.contains('$')
    &&& !(w.len() > 0 && w[0] == '~')
}

/// Plain words are added to the current command as they are.
proof fn lemma_parse_plain(
    a: Seq<Seq<char>>,
    rest: Seq<Seq<char>>,
    done: Seq<SpecCommand>,
    cur: SpecCommand,
    home: Option<Seq<char>>,
    vars: Seq<(Seq<char>, Seq<char>)>,
)
    requires
        forall|i: int| 0 <= i < a.len() ==> is_plain_word(#[trigger] a[i]),
    ensures
        parse_from(a + rest, done, cur, home, vars) == parse_from(
            rest,
            done,
            SpecCommand { args: cur.args + a, ..cur },
            home,
            vars,
        ),
    decreases a.len(),
{
    if a.len() == 0 {
        assert(a + rest == rest);
        assert(cur.args + a == cur.args);
    } else {
        let w = a[0];
        assert((a + rest)[0] == w);
        assert((a + rest).drop_first() == a.drop_first() + rest);
        crate::state::law_plain_word_unchanged(w, home, vars);
        let next = SpecCommand { args: cur.args.push(w), ..cur };
        lemma_parse_plain(a.drop_first(), rest, done, next, home, vars);
        assert(next.args + a.drop_first() == cur.args + a);
    }
}

/// A line of plain words that does not start with `bench` is one command
/// whose arguments are the words themselves; an empty line is no command.
pub proof fn law_plain_line_is_one_command(
    words: Seq<Seq<char>>,
    home: Option<Seq<char>>,
    vars: Seq<(Seq<char>, Seq<char>)>,
)
    requires
        forall|i: int| 0 <= i < words.len() ==> is_plain_word(#[trigger] words[i]),
        !is_bench_line(words),
    ensures
        words.len() == 0 ==> parse_spec(words, home, vars).len() == 0,
        words.len() > 0 ==> parse_spec(words, home, vars) == seq![
            SpecCommand { args: words, ..empty_command(false) },
        ],
{
    let empty_ws = Seq::<Seq<char>>::empty();
    lemma_parse_plain(words, empty_ws, Seq::empty(), empty_command(false), home, vars);
    assert(words + empty_ws == words);
    assert(Seq::<Seq<char>>::empty() + words == words);
}

/// A line `a | b` of plain words `a` and `b`, both non-empty and not starting
/// with `bench`, is the two-command pipeline `a`, then `b`.
pub proof fn law_pipe_splits_commands(
    a: Seq<Seq<char>>,
    b: Seq<Seq<char>>,
    home: Option<Seq<char>>,
    vars: Seq<(Seq<char>, Seq<char>)>,
)
    requires
        a.len() > 0,
        b.len() > 0,
        forall|i: int| 0 <= i < a.len() ==> is_plain_word(#[trigger] a[i]),
        forall|i: int| 0 <= i < b.len() ==> is_plain_word(#[trigger] b[i]),
        a[0] != bench_word(),
    ensures
        parse_spec(a + seq![seq!['|']] + b, home, vars) == seq![
            SpecCommand { args: a, ..empty_command(false) },
            SpecCommand { args: b, ..empty_command(false) },
        ],
{
    let words = a + seq![seq!['|']] + b;
    assert(words[0] == a[0]);
    assert(!is_bench_line(words));
    let pipe_b = seq![seq!['|']] + b;
    assert(words == a + pipe_b);
    lemma_parse_plain(a, pipe_b, Seq::empty(), empty_command(false), home, vars);
    let first = SpecCommand { args: a, ..empty_command(false) };
    assert(Seq::<Seq<char>>::empty() + a == a);
    assert(token_of(pipe_b[0]) is Pipe);
    assert(pipe_b.drop_first() == b);
    let empty_ws = Seq::<Seq<char>>::empty();
    lemma_parse_plain(b, empty_ws, seq![first], empty_command(false), home, vars);
    assert(b + empty_ws == b);
    assert(Seq::<SpecCommand>::empty().push(first) == seq![first]);
    assert(seq![first].push(SpecCommand { args: b, ..empty_command(false) }) == seq![
        first,
        SpecCommand { args: b, ..empty_command(false) },
    ]);
}

/// After plain words `a`, a redirection `<`, `>` or `>>` followed by a plain
/// word `f` gives one command with arguments `a` and `f` as its input file,
/// its output file, or its output file appended to.
pub proof fn law_redirection_sets_file(
    a: Seq<Seq<char>>,
    op: Seq<char>,
    f: Seq<char>,
    home: Option<Seq<char>>,
    vars: Seq<(Seq<char>, Seq<char>)>,
)
    requires
        a.len() > 0,
        forall|i: int| 0 <= i < a.len() ==> is_plain_word(#[trigger] a[i]),
        a[0] != bench_word(),
        !f.contains('$'),
        !(f.len() > 0 && f[0] == '~'),
        op == seq!['<'] || op == seq!['>'] || op == seq!['>', '>'],
    ensures
        parse_spec(a + seq![op, f], home, vars) == seq![
            if op == seq!['<'] {
                SpecCommand { args: a, input_file: Some(f), ..empty_command(false) }
            } else {
                SpecCommand {
                    args: a,
                    output_file: Some(f),
                    append: op == seq!['>', '>'],
                    ..empty_command(false)
                }
            },
        ],
{
    let words = a + seq![op, f];
    assert(words[0] == a[0]);
    assert(!is_bench_line(words));
    lemma_parse_plain(a, seq![op, f], Seq::empty(), empty_command(false), home, vars);
    assert(Seq::<Seq<char>>::empty() + a == a);
    crate::state::law_plain_word_unchanged(f, home, vars);
    let r = seq![op, f];
    assert(r[0] == op && r[1] == f);
    assert(r.skip(2) == Seq::<Seq<char>>::empty());
    assert(seq!['>'] != seq!['|']) by {
        assert(seq!['>'][0] != seq!['|'][0]);
    }
    assert(seq!['<'] != seq!['|']) by {
        assert(seq!['<'][0] != seq!['|'][0]);
    }
    assert(seq!['<'] != seq!['>']) by {
        assert(seq!['<'][0] != seq!['>'][0]);
    }
    assert(seq!['>', '>'] != seq!['|']) by {
        assert(seq!['>', '>'].len() != seq!['|'].len());
    }
    assert(seq!['>', '>'] != seq!['>']) by {
        assert(seq!['>', '>'].len() != seq!['>'].len());
    }
    let cur = SpecCommand { args: a, ..empty_command(false) };
    let expected = if op == seq!['<'] {
        SpecCommand { args: a, input_file: Some(f), ..empty_command(false) }
    } else {
        SpecCommand { args: a, output_file: Some(f), append: op == seq!['>', '>'], ..empty_command(false) }
    };
    let none = Seq::<SpecCommand>::empty();
    assert(parse_from(Seq::<Seq<char>>::empty(), none, expected, home, vars) == (none, expected));
    if op == seq!['<'] {
        assert(token_of(op) is Input);
    } else if op == seq!['>'] {
        assert(token_of(op) is Output);
    } else {
        assert(token_of(op) is Append);
    }
    assert(parse_from(r, none, cur, home, vars) == (none, expected));
    assert(has_content(expected));
    assert(none.push(expected) == seq![expected]);
}

/// `c` with its benchmark flag cleared.
pub open spec fn unflagged(c: SpecCommand) -> SpecCommand {
    SpecCommand { bench: false, ..c }
}

/// The commands of `cmds`, each with its benchmark flag cleared.
pub open spec fn all_unflagged(cmds: Seq<SpecCommand>) -> Seq<SpecCommand> {
    cmds.map_values(|c: SpecCommand| unflagged(c))
}

proof fn lemma_parse_from_flag(
    ws: Seq<Seq<char>>,
    done: Seq<SpecCommand>,
    cur: SpecCommand,
    home: Option<Seq<char>>,
    vars: Seq<(Seq<char>, Seq<char>)>,
)
    ensures
        ({
            let (d1, c1) = parse_from(ws, done, cur, home, vars);
            let (d2, c2) = parse_from(ws, all_unflagged(done), unflagged(cur), home, vars);
            all_unflagged(d1) == d2 && unflagged(c1) == c2
        }),
    decreases ws.len(),
{
    if ws.len() > 0 {
        match token_of(ws[0]) {
            Token::Pipe => {
                assert(all_unflagged(done.push(cur)) == all_unflagged(done).push(unflagged(cur)));
                lemma_parse_from_flag(ws.drop_first(), done.push(cur), empty_command(cur.bench), home, vars);
                assert(unflagged(empty_command(cur.bench)) == empty_command(false));
            },
            Token::Output => if ws.len() >= 2 {
                lemma_parse_from_flag(
                    ws.skip(2),
                    done,
                    SpecCommand { output_file: Some(expanded_word(ws[1], home, vars)), ..cur },
                    home,
                    vars,
                );
            },
            Token::Append => if ws.len() >= 2 {
                lemma_parse_from_flag(
                    ws.skip(2),
                    done,
                    SpecCommand {
                        output_file: Some(expanded_word(ws[1], home, vars)),
                        append: true,
                        ..cur
                    },
                    home,
                    vars,
                );
            },
            Token::Input => if ws.len() >= 2 {
                lemma_parse_from_flag(
                    ws.skip(2),
                    done,
                    SpecCommand { input_file: Some(expanded_word(ws[1], home, vars)), ..cur },
                    home,
                    vars,
                );
            },
            Token::Word => {
                lemma_parse_from_flag(
                    ws.drop_first(),
                    done,
                    SpecCommand { args: cur.args.push(expanded_word(ws[0], home, vars)), ..cur },
                    home,
                    vars,
                );
            },
        }
    }
}

/// A leading `bench` is dropped from the line and only marks its commands:
/// the pipeline is the one the remaining words give, every command flagged.
/// A `bench` anywhere else is an ordinary word, and a line without a leading
/// `bench` is read as it is, unflagged.
pub proof fn law_leading_bench_dropped(
    rest: Seq<Seq<char>>,
    words: Seq<Seq<char>>,
    home: Option<Seq<char>>,
    vars: Seq<(Seq<char>, Seq<char>)>,
)
    ensures
        token_of(bench_word()) is Word,
        parse_spec(seq![bench_word()] + rest, home, vars) == parse_pipeline(rest, true, home, vars),
        all_unflagged(parse_pipeline(rest, true, home, vars)) == parse_pipeline(rest, false, home, vars),
        !is_bench_line(words) ==> parse_spec(words, home, vars) == parse_pipeline(words, false, home, vars),
{
    let b = bench_word();
    assert(b != seq!['|']) by { assert(b.len() != seq!['|'].len()); }
    assert(b != seq!['>']) by { assert(b.len() != seq!['>'].len()); }
    assert(b != seq!['>', '>']) by { assert(b.len() != seq!['>', '>'].len()); }
    assert(b != seq!['<']) by { assert(b.len() != seq!['<'].len()); }
    let words1 = seq![b] + rest;
    assert(words1[0] == b);
    assert(words1.drop_first() == rest);
    let none = Seq::<SpecCommand>::empty();
    lemma_parse_from_flag(rest, none, empty_command(true), home, vars);
    assert(all_unflagged(none) == none);
    assert(unflagged(empty_command(true)) == empty_command(false));
    let (d1, c1) = parse_from(rest, none, empty_command(true), home, vars);
    if has_content(c1) {
        assert(all_unflagged(d1.push(c1)) == all_unflagged(d1).push(unflagged(c1)));
    }
}

/// Whether a token is one of the redirections `>`, `>>`, `<`.
pub open spec fn is_redirect(t: Token) -> bool {
    t is Output || t is Append || t is Input
}

/// The words of `ws` between its `|` words, in order: `k` pipes give `k + 1`
/// segments, some of which may be empty.
pub open spec fn pipe_segments(ws: Seq<Seq<char>>) -> Seq<Seq<Seq<char>>>
    decreases ws.len(),
{
    if ws.len() == 0 {
        seq![Seq::empty()]
    } else if token_of(ws[0]) is Pipe {
        seq![Seq::empty()] + pipe_segments(ws.drop_first())
    } else {
        let rest = pipe_segments(ws.drop_first());
        rest.update(0, seq![ws[0]] + rest[0])
    }
}

proof fn lemma_pipe_segments_len(ws: Seq<Seq<char>>)
    ensures
        pipe_segments(ws).len() >= 1,
    decreases ws.len(),
{
    if ws.len() > 0 {
        lemma_pipe_segments_len(ws.drop_first());
    }
}

/// Each word of `ws` expanded.
pub open spec fn expand_all(
    ws: Seq<Seq<char>>,
    home: Option<Seq<char>>,
    vars: Seq<(Seq<char>, Seq<char>)>,
) -> Seq<Seq<char>> {
    ws.map_values(|w: Seq<char>| expanded_word(w, home, vars))
}

/// One command per segment, its arguments the segment's words expanded
/// (after `first_args` for the first segment), with no redirection.
pub open spec fn segment_commands(
    segs: Seq<Seq<Seq<char>>>,
    first_args: Seq<Seq<char>>,
    bench: bool,
    home: Option<Seq<char>>,
    vars: Seq<(Seq<char>, Seq<char>)>,
) -> Seq<SpecCommand> {
    Seq::new(
        segs.len(),
        |i: int|
            SpecCommand {
                args: (if i == 0 {
                    first_args
                } else {
                    Seq::empty()
                }) + expand_all(segs[i], home, vars),
                ..empty_command(bench)
            },
    )
}

proof fn lemma_parse_segments(
    ws: Seq<Seq<char>>,
    done: Seq<SpecCommand>,
    a: Seq<Seq<char>>,
    bench: bool,
    home: Option<Seq<char>>,
    vars: Seq<(Seq<char>, Seq<char>)>,
)
    requires
        forall|i: int| 0 <= i < ws.len() ==> !is_redirect(token_of(#[trigger] ws[i])),
    ensures
        ({
            let c = segment_commands(pipe_segments(ws), a, bench, home, vars);
            parse_from(ws, done, SpecCommand { args: a, ..empty_command(bench) }, home, vars) == (
            done + c.drop_last(), c.last())
        }),
    decreases ws.len(),
{
    let cur = SpecCommand { args: a, ..empty_command(bench) };
    let segs = pipe_segments(ws);
    let c = segment_commands(segs, a, bench, home, vars);
    lemma_pipe_segments_len(ws);
    if ws.len() == 0 {
        assert(expand_all(Seq::<Seq<char>>::empty(), home, vars) == Seq::<Seq<char>>::empty());
        assert(a + Seq::<Seq<char>>::empty() == a);
        assert(c.drop_last() == Seq::<SpecCommand>::empty());
        assert(done + Seq::<SpecCommand>::empty() == done);
    } else {
        let rest = ws.drop_first();
        assert(forall|i: int| 0 <= i < rest.len() ==> rest[i] == ws[i + 1]);
        lemma_pipe_segments_len(rest);
        let segs2 = pipe_segments(rest);
        if token_of(ws[0]) is Pipe {
            let none = Seq::<Seq<char>>::empty();
            lemma_parse_segments(rest, done.push(cur), none, bench, home, vars);
            let c2 = segment_commands(segs2, none, bench, home, vars);
            assert(empty_command(bench) == SpecCommand { args: none, ..empty_command(bench) });
            assert(expand_all(none, home, vars) == none);
            assert(a + none == a);
            assert(c == seq![cur] + c2) by {
                assert forall|i: int| 0 <= i < c.len() implies c[i] == (seq![cur] + c2)[i] by {
                    if i > 0 {
                        assert(segs[i] == segs2[i - 1]);
                        assert(none + expand_all(segs2[i - 1], home, vars) == expand_all(segs2[i - 1], home, vars));
                    }
                }
            }
            assert(c.drop_last() == seq![cur] + c2.drop_last());
            assert(done.push(cur) + c2.drop_last() == done + (seq![cur] + c2.drop_last()));
        } else {
            let w = ws[0];
            let e = expanded_word(w, home, vars);
            let a2 = a.push(e);
            lemma_parse_segments(rest, done, a2, bench, home, vars);
            let c2 = segment_commands(segs2, a2, bench, home, vars);
            assert(SpecCommand { args: cur.args.push(e), ..cur } == SpecCommand {
                args: a2,
                ..empty_command(bench)
            });
            assert(c == c2) by {
                assert forall|i: int| 0 <= i < c.len() implies c[i] == c2[i] by {
                    if i == 0 {
                        assert(segs[0] == seq![w] + segs2[0]);
                        assert(expand_all(seq![w] + segs2[0], home, vars) == seq![e] + expand_all(segs2[0], home, vars));
                        assert(a + (seq![e] + expand_all(segs2[0], home, vars)) == a2 + expand_all(segs2[0], home, vars));
                    } else {
                        assert(segs[i] == segs2[i]);
                    }
                }
            }
        }
    }
}

/// A line without redirections is split at its `|` words: command `i` has
/// the `i`-th segment's words, expanded, as arguments and no file, and the
/// last segment gives a command only when it is not empty.
pub proof fn law_pipes_split_line(
    words: Seq<Seq<char>>,
    home: Option<Seq<char>>,
    vars: Seq<(Seq<char>, Seq<char>)>,
)
    requires
        forall|i: int| 0 <= i < words.len() ==> !is_redirect(token_of(#[trigger] words[i])),
    ensures
        ({
            let segs = pipe_segments(line_words(words));
            let c = segment_commands(segs, Seq::empty(), is_bench_line(words), home, vars);
            parse_spec(words, home, vars) == if segs.last().len() > 0 {
                c
            } else {
                c.drop_last()
            }
        }),
{
    let ws = line_words(words);
    let bench = is_bench_line(words);
    assert(forall|i: int| 0 <= i < ws.len() ==> !is_redirect(token_of(#[trigger] ws[i]))) by {
        if bench {
            assert(forall|i: int| 0 <= i < ws.len() ==> ws[i] == words[i + 1]);
        }
    }
    let none = Seq::<Seq<char>>::empty();
    lemma_parse_segments(ws, Seq::empty(), none, bench, home, vars);
    assert(empty_command(bench) == SpecCommand { args: none, ..empty_command(bench) });
    lemma_pipe_segments_len(ws);
    let segs = pipe_segments(ws);
    let c = segment_commands(segs, none, bench, home, vars);
    assert(Seq::<SpecCommand>::empty() + c.drop_last() == c.drop_last());
    let k = segs.len() - 1;
    assert(c.last().args.len() == segs.last().len()) by {
        assert(c.last().args == (if k == 0 { none } else { none }) + expand_all(segs[k], home, vars));
        assert(none + expand_all(segs[k], home, vars) == expand_all(segs[k], home, vars));
    }
    if segs.last().len() > 0 {
        assert(c.drop_last().push(c.last()) == c);
    }
}

/// Whether the words `ws` end with a redirection still waiting for its file.
pub open spec fn awaits_target(ws: Seq<Seq<char>>) -> bool
    decreases ws.len(),
{
    if ws.len() == 0 {
        false
    } else if is_redirect(token_of(ws[0])) {
        if ws.len() >= 2 {
            awaits_target(ws.skip(2))
        } else {
            true
        }
    } else {
        awaits_target(ws.drop_first())
    }
}

proof fn lemma_parse_from_concat(
    a: Seq<Seq<char>>,
    b: Seq<Seq<char>>,
    done: Seq<SpecCommand>,
    cur: SpecCommand,
    home: Option<Seq<char>>,
    vars: Seq<(Seq<char>, Seq<char>)>,
)
    requires
        !awaits_target(a),
    ensures
        ({
            let (d, c) = parse_from(a, done, cur, home, vars);
            parse_from(a + b, done, cur, home, vars) == parse_from(b, d, c, home, vars)
        }),
    decreases a.len(),
{
    if a.len() == 0 {
        assert(a + b == b);
    } else {
        let ab = a + b;
        assert(ab[0] == a[0]);
        assert(ab.drop_first() == a.drop_first() + b);
        match token_of(a[0]) {
            Token::Pipe => {
                lemma_parse_from_concat(a.drop_first(), b, done.push(cur), empty_command(cur.bench), home, vars);
            },
            Token::Word => {
                lemma_parse_from_concat(
                    a.drop_first(),
                    b,
                    done,
                    SpecCommand { args: cur.args.push(expanded_word(a[0], home, vars)), ..cur },
                    home,
                    vars,
                );
            },
            Token::Output => {
                assert(ab[1] == a[1]);
                assert(ab.skip(2) == a.skip(2) + b);
                lemma_parse_from_concat(
                    a.skip(2),
                    b,
                    done,
                    SpecCommand { output_file: Some(expanded_word(a[1], home, vars)), ..cur },
                    home,
                    vars,
                );
            },
            Token::Append => {
                assert(ab[1] == a[1]);
                assert(ab.skip(2) == a.skip(2) + b);
                lemma_parse_from_concat(
                    a.skip(2),
                    b,
                    done,
                    SpecCommand {
                        output_file: Some(expanded_word(a[1], home, vars)),
                        append: true,
                        ..cur
                    },
                    home,
                    vars,
                );
            },
            Token::Input => {
                assert(ab[1] == a[1]);
                assert(ab.skip(2) == a.skip(2) + b);
                lemma_parse_from_concat(
                    a.skip(2),
                    b,
                    done,
                    SpecCommand { input_file: Some(expanded_word(a[1], home, vars)), ..cur },
                    home,
                    vars,
                );
            },
        }
    }
}

/// The words of a line with `extra` added at the end, where `extra` does not
/// start with `bench`, are the line's words followed by `extra`.
proof fn lemma_line_words_append(words: Seq<Seq<char>>, extra: Seq<Seq<char>>)
    requires
        extra.len() > 0,
        extra[0] != bench_word(),
    ensures
        line_words(words + extra) == line_words(words) + extra,
        is_bench_line(words + extra) == is_bench_line(words),
{
    if words.len() > 0 {
        assert((words + extra)[0] == words[0]);
        if is_bench_line(words) {
            assert((words + extra).drop_first() == words.drop_first() + extra);
        }
    } else {
        assert(words + extra == extra);
        assert(Seq::<Seq<char>>::empty() + extra == extra);
    }
}

proof fn lemma_redirect_not_bench(op: Seq<char>)
    requires
        is_redirect(token_of(op)),
    ensures
        op != bench_word(),
{
    assert(bench_word() != seq!['|']) by { assert(bench_word().len() != 1); }
    assert(bench_word() != seq!['>']) by { assert(bench_word().len() != 1); }
    assert(bench_word() != seq!['>', '>']) by { assert(bench_word().len() != 2); }
    assert(bench_word() != seq!['<']) by { assert(bench_word().len() != 1); }
}

/// A redirection `>`, `>>` or `<` at the very end of a line, with no file
/// after it, changes nothing.
pub proof fn law_trailing_operator_ignored(
    words: Seq<Seq<char>>,
    op: Seq<char>,
    home: Option<Seq<char>>,
    vars: Seq<(Seq<char>, Seq<char>)>,
)
    requires
        is_redirect(token_of(op)),
        !awaits_target(line_words(words)),
    ensures
        parse_spec(words + seq![op], home, vars) == parse_spec(words, home, vars),
{
    lemma_redirect_not_bench(op);
    lemma_line_words_append(words, seq![op]);
    let bench = is_bench_line(words);
    lemma_parse_from_concat(line_words(words), seq![op], Seq::empty(), empty_command(bench), home, vars);
}

/// What a redirection `op` to the file `f` makes of the command `c`: it
/// replaces the input file (`<`) or the output file (`>`, and `>>`, which
/// also appends), whatever file `c` had before.
pub open spec fn redirected(
    c: SpecCommand,
    op: Seq<char>,
    f: Seq<char>,
    home: Option<Seq<char>>,
    vars: Seq<(Seq<char>, Seq<char>)>,
) -> SpecCommand {
    match token_of(op) {
        Token::Input => SpecCommand { input_file: Some(expanded_word(f, home, vars)), ..c },
        Token::Append => SpecCommand {
            output_file: Some(expanded_word(f, home, vars)),
            append: true,
            ..c
        },
        _ => SpecCommand { output_file: Some(expanded_word(f, home, vars)), ..c },
    }
}

/// The last redirection wins: a redirection at the end of a line sets the
/// file of the command being built, replacing any it had, and keeps that
/// command.
pub proof fn law_last_redirection_wins(
    words: Seq<Seq<char>>,
    op: Seq<char>,
    f: Seq<char>,
    home: Option<Seq<char>>,
    vars: Seq<(Seq<char>, Seq<char>)>,
)
    requires
        is_redirect(token_of(op)),
        !awaits_target(line_words(words)),
    ensures
        ({
            let (d, c) = parse_from(
                line_words(words),
                Seq::empty(),
                empty_command(is_bench_line(words)),
                home,
                vars,
            );
            parse_spec(words + seq![op, f], home, vars) == d.push(redirected(c, op, f, home, vars))
        }),
{
    lemma_redirect_not_bench(op);
    lemma_line_words_append(words, seq![op, f]);
    let bench = is_bench_line(words);
    let tail = seq![op, f];
    lemma_parse_from_concat(line_words(words), tail, Seq::empty(), empty_command(bench), home, vars);
    assert(tail[0] == op && tail[1] == f);
    assert(tail.skip(2) == Seq::<Seq<char>>::empty());
    let (d, c) = parse_from(line_words(words), Seq::empty(), empty_command(bench), home, vars);
    let r = redirected(c, op, f, home, vars);
    assert(parse_from(Seq::<Seq<char>>::empty(), d, r, home, vars) == (d, r));
    assert(parse_from(tail, d, c, home, vars) == (d, r));
    assert(has_content(r));
}

/// The arguments of all commands, in order.
pub open spec fn all_args(cmds: Seq<SpecCommand>) -> Seq<Seq<char>>
    decreases cmds.len(),
{
    if cmds.len() == 0 {
        Seq::empty()
    } else {
        all_args(cmds.drop_last()) + cmds.last().args
    }
}

/// The words of `ws` that are neither `|`, a redirection, nor the file a
/// redirection takes, in order.
pub open spec fn argument_words(ws: Seq<Seq<char>>) -> Seq<Seq<char>>
    decreases ws.len(),
{
    if ws.len() == 0 {
        Seq::empty()
    } else {
        match token_of(ws[0]) {
            Token::Pipe => argument_words(ws.drop_first()),
            Token::Word => seq![ws[0]] + argument_words(ws.drop_first()),
            _ => if ws.len() >= 2 {
                argument_words(ws.skip(2))
            } else {
                Seq::empty()
            },
        }
    }
}

proof fn lemma_parse_from_args(
    ws: Seq<Seq<char>>,
    done: Seq<SpecCommand>,
    cur: SpecCommand,
    home: Option<Seq<char>>,
    vars: Seq<(Seq<char>, Seq<char>)>,
)
    ensures
        ({
            let (d, c) = parse_from(ws, done, cur, home, vars);
            all_args(d) + c.args == all_args(done) + cur.args + expand_all(argument_words(ws), home, vars)
        }),
    decreases ws.len(),
{
    let none = Seq::<Seq<char>>::empty();
    if ws.len() == 0 {
        assert(expand_all(none, home, vars) == none);
    } else {
        match token_of(ws[0]) {
            Token::Pipe => {
                lemma_parse_from_args(ws.drop_first(), done.push(cur), empty_command(cur.bench), home, vars);
                assert(done.push(cur).drop_last() == done);
                assert(all_args(done.push(cur)) + none == all_args(done) + cur.args);
            },
            Token::Word => {
                let e = expanded_word(ws[0], home, vars);
                lemma_parse_from_args(
                    ws.drop_first(),
                    done,
                    SpecCommand { args: cur.args.push(e), ..cur },
                    home,
                    vars,
                );
                let r = expand_all(argument_words(ws.drop_first()), home, vars);
                assert(expand_all(seq![ws[0]] + argument_words(ws.drop_first()), home, vars) == seq![e] + r);
                assert(all_args(done) + cur.args.push(e) + r == all_args(done) + cur.args + (seq![e] + r));
            },
            Token::Output => if ws.len() >= 2 {
                lemma_parse_from_args(
                    ws.skip(2),
                    done,
                    SpecCommand { output_file: Some(expanded_word(ws[1], home, vars)), ..cur },
                    home,
                    vars,
                );
            } else {
                assert(expand_all(none, home, vars) == none);
                assert(cur.args + none == cur.args);
            },
            Token::Append => if ws.len() >= 2 {
                lemma_parse_from_args(
                    ws.skip(2),
                    done,
                    SpecCommand {
                        output_file: Some(expanded_word(ws[1], home, vars)),
                        append: true,
                        ..cur
                    },
                    home,
                    vars,
                );
            } else {
                assert(expand_all(none, home, vars) == none);
                assert(cur.args + none == cur.args);
            },
            Token::Input => if ws.len() >= 2 {
                lemma_parse_from_args(
                    ws.skip(2),
                    done,
                    SpecCommand { input_file: Some(expanded_word(ws[1], home, vars)), ..cur },
                    home,
                    vars,
                );
            } else {
                assert(expand_all(none, home, vars) == none);
                assert(cur.args + none == cur.args);
            },
        }
    }
}

/// Every word of a line that is not `|`, a redirection or a redirection's
/// file lands, expanded, in the arguments of exactly one command, in the
/// order of the line: none is lost, repeated or moved.
pub proof fn law_arguments_in_order(
    words: Seq<Seq<char>>,
    home: Option<Seq<char>>,
    vars: Seq<(Seq<char>, Seq<char>)>,
)
    ensures
        all_args(parse_spec(words, home, vars)) == expand_all(argument_words(line_words(words)), home, vars),
{
    let bench = is_bench_line(words);
    let ws = line_words(words);
    let none = Seq::<SpecCommand>::empty();
    lemma_parse_from_args(ws, none, empty_command(bench), home, vars);
    let (d, c) = parse_from(ws, none, empty_command(bench), home, vars);
    let r = expand_all(argument_words(ws), home, vars);
    assert(all_args(none) + empty_command(bench).args + r == r);
    if has_content(c) {
        assert(d.push(c).drop_last() == d);
    } else {
        assert(all_args(d) + c.args == all_args(d));
    }
}

/// The words of each command of `ws`, in order: the line cut at its `|`
/// words, where a redirection takes the word after it (even a `|`) into its
/// command as its file.
pub open spec fn command_segments(ws: Seq<Seq<char>>) -> Seq<Seq<Seq<char>>>
    decreases ws.len(),
{
    if ws.len() == 0 {
        seq![Seq::empty()]
    } else {
        match token_of(ws[0]) {
            Token::Pipe => seq![Seq::empty()] + command_segments(ws.drop_first()),
            Token::Word => {
                let r = command_segments(ws.drop_first());
                r.update(0, seq![ws[0]] + r[0])
            },
            _ => if ws.len() >= 2 {
                let r = command_segments(ws.skip(2));
                r.update(0, seq![ws[0], ws[1]] + r[0])
            } else {
                seq![seq![ws[0]]]
            },
        }
    }
}

proof fn lemma_command_segments_len(ws: Seq<Seq<char>>)
    ensures
        command_segments(ws).len() >= 1,
    decreases ws.len(),
{
    if ws.len() > 0 {
        match token_of(ws[0]) {
            Token::Pipe => lemma_command_segments_len(ws.drop_first()),
            Token::Word => lemma_command_segments_len(ws.drop_first()),
            _ => if ws.len() >= 2 {
                lemma_command_segments_len(ws.skip(2));
            },
        }
    }
}

/// The file of the last `>` or `>>` of a command's words that has one.
pub open spec fn last_output_target(seg: Seq<Seq<char>>) -> Option<Seq<char>>
    decreases seg.len(),
{
    if seg.len() == 0 {
        None
    } else if is_redirect(token_of(seg[0])) {
        if seg.len() >= 2 {
            let later = last_output_target(seg.skip(2));
            if later is None && (token_of(seg[0]) is Output || token_of(seg[0]) is Append) {
                Some(seg[1])
            } else {
                later
            }
        } else {
            None
        }
    } else {
        last_output_target(seg.drop_first())
    }
}

/// The file of the last `<` of a command's words that has one.
pub open spec fn last_input_target(seg: Seq<Seq<char>>) -> Option<Seq<char>>
    decreases seg.len(),
{
    if seg.len() == 0 {
        None
    } else if is_redirect(token_of(seg[0])) {
        if seg.len() >= 2 {
            let later = last_input_target(seg.skip(2));
            if later is None && token_of(seg[0]) is Input {
                Some(seg[1])
            } else {
                later
            }
        } else {
            None
        }
    } else {
        last_input_target(seg.drop_first())
    }
}

/// Whether a command's words hold a `>>` followed by a file.
pub open spec fn appends(seg: Seq<Seq<char>>) -> bool
    decreases seg.len(),
{
    if seg.len() == 0 {
        false
    } else if is_redirect(token_of(seg[0])) {
        if seg.len() >= 2 {
            token_of(seg[0]) is Append || appends(seg.skip(2))
        } else {
            false
        }
    } else {
        appends(seg.drop_first())
    }
}

/// A file named by a redirection, expanded.
pub open spec fn expanded_target(
    t: Option<Seq<char>>,
    home: Option<Seq<char>>,
    vars: Seq<(Seq<char>, Seq<char>)>,
) -> Option<Seq<char>> {
    match t {
        Some(f) => Some(expanded_word(f, home, vars)),
        None => None,
    }
}

/// The command `cur` after reading the words `seg` of its segment: the
/// argument words added, expanded, in order; the last output and input files
/// replacing the ones it had; appending once a `>>` with a file is read.
pub open spec fn read_segment(
    cur: SpecCommand,
    seg: Seq<Seq<char>>,
    home: Option<Seq<char>>,
    vars: Seq<(Seq<char>, Seq<char>)>,
) -> SpecCommand {
    SpecCommand {
        args: cur.args + expand_all(argument_words(seg), home, vars),
        output_file: match last_output_target(seg) {
            Some(f) => Some(expanded_word(f, home, vars)),
            None => cur.output_file,
        },
        input_file: match last_input_target(seg) {
            Some(f) => Some(expanded_word(f, home, vars)),
            None => cur.input_file,
        },
        append: cur.append || appends(seg),
        bench: cur.bench,
    }
}

/// The command made of the words `seg` of one segment, with the benchmark
/// flag `bench`.
pub open spec fn segment_command(
    seg: Seq<Seq<char>>,
    bench: bool,
    home: Option<Seq<char>>,
    vars: Seq<(Seq<char>, Seq<char>)>,
) -> SpecCommand {
    read_segment(empty_command(bench), seg, home, vars)
}

/// The commands read from the segments `segs`, the first one continuing `cur`.
pub open spec fn segments_read(
    segs: Seq<Seq<Seq<char>>>,
    cur: SpecCommand,
    home: Option<Seq<char>>,
    vars: Seq<(Seq<char>, Seq<char>)>,
) -> Seq<SpecCommand> {
    Seq::new(
        segs.len(),
        |i: int|
            if i == 0 {
                read_segment(cur, segs[0], home, vars)
            } else {
                segment_command(segs[i], cur.bench, home, vars)
            },
    )
}

proof fn lemma_parse_command_segments(
    ws: Seq<Seq<char>>,
    done: Seq<SpecCommand>,
    cur: SpecCommand,
    home: Option<Seq<char>>,
    vars: Seq<(Seq<char>, Seq<char>)>,
)
    ensures
        ({
            let c = segments_read(command_segments(ws), cur, home, vars);
            parse_from(ws, done, cur, home, vars) == (done + c.drop_last(), c.last())
        }),
    decreases ws.len(),
{
    let none = Seq::<Seq<char>>::empty();
    lemma_command_segments_len(ws);
    let segs = command_segments(ws);
    let c = segments_read(segs, cur, home, vars);
    if ws.len() == 0 {
        assert(expand_all(none, home, vars) == none);
        assert(cur.args + none == cur.args);
        assert(read_segment(cur, none, home, vars) == cur);
        assert(c.drop_last() == Seq::<SpecCommand>::empty());
        assert(done + Seq::<SpecCommand>::empty() == done);
    } else {
        match token_of(ws[0]) {
            Token::Pipe => {
                let rest = ws.drop_first();
                lemma_command_segments_len(rest);
                let fresh = empty_command(cur.bench);
                lemma_parse_command_segments(rest, done.push(cur), fresh, home, vars);
                let c2 = segments_read(command_segments(rest), fresh, home, vars);
                assert(expand_all(none, home, vars) == none);
                assert(cur.args + none == cur.args);
                assert(read_segment(cur, none, home, vars) == cur);
                assert(c == seq![cur] + c2) by {
                    assert forall|i: int| 0 <= i < c.len() implies c[i] == (seq![cur] + c2)[i] by {
                        if i == 1 {
                            assert(segs[1] == command_segments(rest)[0]);
                        } else if i > 1 {
                            assert(segs[i] == command_segments(rest)[i - 1]);
                        }
                    }
                }
                assert(c.drop_last() == seq![cur] + c2.drop_last());
                assert(done.push(cur) + c2.drop_last() == done + (seq![cur] + c2.drop_last()));
            },
            Token::Word => {
                let rest = ws.drop_first();
                lemma_command_segments_len(rest);
                let r = command_segments(rest);
                let e = expanded_word(ws[0], home, vars);
                let cur2 = SpecCommand { args: cur.args.push(e), ..cur };
                lemma_parse_command_segments(rest, done, cur2, home, vars);
                let c2 = segments_read(r, cur2, home, vars);
                assert(c == c2) by {
                    assert forall|i: int| 0 <= i < c.len() implies c[i] == c2[i] by {
                        if i == 0 {
                            let x = r[0];
                            assert(segs[0] == seq![ws[0]] + x);
                            assert((seq![ws[0]] + x)[0] == ws[0]);
                            assert((seq![ws[0]] + x).drop_first() == x);
                            let ax = expand_all(argument_words(x), home, vars);
                            assert(expand_all(seq![ws[0]] + argument_words(x), home, vars) == seq![e] + ax);
                            assert(cur.args + (seq![e] + ax) == cur.args.push(e) + ax);
                        } else {
                            assert(segs[i] == r[i]);
                        }
                    }
                }
            },
            _ => {
                if ws.len() >= 2 {
                    let rest = ws.skip(2);
                    lemma_command_segments_len(rest);
                    let r = command_segments(rest);
                    let f = expanded_word(ws[1], home, vars);
                    let cur2 = match token_of(ws[0]) {
                        Token::Input => SpecCommand { input_file: Some(f), ..cur },
                        Token::Append => SpecCommand { output_file: Some(f), append: true, ..cur },
                        _ => SpecCommand { output_file: Some(f), ..cur },
                    };
                    lemma_parse_command_segments(rest, done, cur2, home, vars);
                    let c2 = segments_read(r, cur2, home, vars);
                    assert(c == c2) by {
                        assert forall|i: int| 0 <= i < c.len() implies c[i] == c2[i] by {
                            if i == 0 {
                                let x = r[0];
                                let y = seq![ws[0], ws[1]] + x;
                                assert(segs[0] == y);
                                assert(y[0] == ws[0] && y[1] == ws[1]);
                                assert(y.skip(2) == x);
                            } else {
                                assert(segs[i] == r[i]);
                            }
                        }
                    }
                } else {
                    let y = seq![ws[0]];
                    assert(segs == seq![y]);
                    assert(argument_words(y) == none);
                    assert(expand_all(none, home, vars) == none);
                    assert(cur.args + none == cur.args);
                    assert(read_segment(cur, y, home, vars) == cur);
                    assert(c.drop_last() == Seq::<SpecCommand>::empty());
                    assert(done + Seq::<SpecCommand>::empty() == done);
                }
            },
        }
    }
}

/// Each command of a line is read from its own segment of words: its
/// arguments are the segment's argument words, expanded, in order; its output
/// file is that of the segment's last `>` or `>>` with a file, its input file
/// that of the last `<` with a file, and it appends when the segment has a
/// `>>` with a file. A redirection with no file after it has no effect. Every
/// segment gives a command, except a last one that gives an empty command.
pub proof fn law_segments_give_commands(
    words: Seq<Seq<char>>,
    home: Option<Seq<char>>,
    vars: Seq<(Seq<char>, Seq<char>)>,
)
    ensures
        ({
            let segs = command_segments(line_words(words));
            let b = is_bench_line(words);
            let cmds = parse_spec(words, home, vars);
            &&& segs.len() >= 1
            &&& cmds.len() == if has_content(segment_command(segs.last(), b, home, vars)) {
                segs.len()
            } else {
                (segs.len() - 1) as nat
            }
            &&& forall|i: int|
                0 <= i < cmds.len() ==> #[trigger] cmds[i] == segment_command(segs[i], b, home, vars)
        }),
{
    let ws = line_words(words);
    let b = is_bench_line(words);
    let fresh = empty_command(b);
    lemma_command_segments_len(ws);
    lemma_parse_command_segments(ws, Seq::empty(), fresh, home, vars);
    let segs = command_segments(ws);
    let c = segments_read(segs, fresh, home, vars);
    assert(Seq::<SpecCommand>::empty() + c.drop_last() == c.drop_last());
    assert forall|i: int| 0 <= i < c.len() implies c[i] == segment_command(segs[i], b, home, vars) by {}
    if has_content(c.last()) {
        assert(c.drop_last().push(c.last()) == c);
    }
}

} // verus!

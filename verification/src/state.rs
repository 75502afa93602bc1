//! The environment a word is expanded in, and word expansion itself
//! (`~` for the home directory, `$NAME` and `${NAME}` for variables).

use vstd::prelude::*;
use crate::text::{chars_of, push_char, is_alphanumeric, is_ascii_alphanumeric, char_is_alphanumeric};

verus! {

broadcast use vstd::string::group_string_axioms;

/// The variables and home directory that word expansion reads.
pub struct Environment {
    /// The user's home directory, if it is known.
    pub home: Option<String>,
    /// Variable names and their values, looked up front to back.
    pub vars: Vec<(String, String)>,
}

/// The home directory as the `dirs` crate finds it (`dirs::home_dir`),
/// turned into text lossily. Nothing is promised of the result: it depends
/// on the process environment and the user database.
#[verifier::external_body]
fn home_dir_text() -> Option<String> {
    dirs::home_dir().map(|p| p.to_string_lossy().into_owned())
}

/// The value bound to `name` in `vars`: the first pair whose name matches.
pub open spec fn lookup(vars: Seq<(Seq<char>, Seq<char>)>, name: Seq<char>) -> Option<Seq<char>>
    decreases vars.len(),
{
    if vars.len() == 0 {
        None
    } else if vars[0].0 == name {
        Some(vars[0].1)
    } else {
        lookup(vars.drop_first(), name)
    }
}

impl Environment {
    /// The home directory as characters.
    pub open spec fn home_chars(&self) -> Option<Seq<char>> {
        match self.home {
            Some(h) => Some(h@),
            None => None,
        }
    }

    /// The variables as pairs of character sequences.
    pub open spec fn var_list(&self) -> Seq<(Seq<char>, Seq<char>)> {
        self.vars@.map_values(|p: (String, String)| (p.0@, p.1@))
    }

    /// An environment with the given home directory and variables.
    pub fn new(home: Option<String>, vars: Vec<(String, String)>) -> (env: Environment)
        ensures
            env.home == home,
            env.vars@ == vars@,
    {
        Environment { home, vars }
    }

    /// The environment of this process: `vars` as given, and the home
    /// directory that `dirs::home_dir` reports.
    pub fn capture(vars: Vec<(String, String)>) -> (env: Environment)
        ensures
            env.vars@ == vars@,
    {
        Environment { home: home_dir_text(), vars }
    }

    /// The value of the variable `name`, if it is set.
    pub fn get(&self, name: &String) -> (res: Option<&String>)
        ensures
            match res {
                Some(v) => lookup(self.var_list(), name@) == Some(v@),
                None => lookup(self.var_list(), name@) is None,
            },
    {
        let mut i: usize = 0;
        assert(self.var_list().skip(0) == self.var_list());
        while i < self.vars.len()
            invariant
                i <= self.vars.len(),
                lookup(self.var_list(), name@) == lookup(self.var_list().skip(i as int), name@),
            decreases self.vars.len() - i,
        {
            assert(self.var_list().skip(i as int).drop_first() == self.var_list().skip(i + 1));
            if self.vars[i].0 == *name {
                return Some(&self.vars[i].1);
            }
            i = i + 1;
        }
        None
    }
}

/// Whether `c` may stand in a variable name written without braces: `_`, an
/// ASCII letter or digit, or a character beyond ASCII that is alphanumeric.
pub open spec fn is_name_char(c: char) -> bool {
    if c <= '\x7f' {
        is_ascii_alphanumeric(c) || c == '_'
    } else {
        char_is_alphanumeric(c) || c == '_'
    }
}

/// How many leading characters of `s` form a bare variable name.
pub open spec fn bare_name_len(s: Seq<char>) -> nat
    decreases s.len(),
{
    if s.len() > 0 && is_name_char(s[0]) {
        1 + bare_name_len(s.drop_first())
    } else {
        0
    }
}

/// How many characters of `s` come before its first `}` (all of them if none).
pub open spec fn braced_name_len(s: Seq<char>) -> nat
    decreases s.len(),
{
    if s.len() > 0 && s[0] != '}' {
        1 + braced_name_len(s.drop_first())
    } else {
        0
    }
}

/// A bare name never runs past the end of the text.
pub proof fn lemma_bare_name_len_bound(s: Seq<char>)
    ensures
        bare_name_len(s) <= s.len(),
    decreases s.len(),
{
    if s.len() > 0 && is_name_char(s[0]) {
        lemma_bare_name_len_bound(s.drop_first());
    }
}

/// What a reference to the variable `name` is replaced by: a lone `$` when
/// the name is empty, else the variable's value, or nothing when it is unset.
pub open spec fn substitution(name: Seq<char>, vars: Seq<(Seq<char>, Seq<char>)>) -> Seq<char> {
    if name.len() == 0 {
        seq!['$']
    } else {
        match lookup(vars, name) {
            Some(v) => v,
            None => Seq::empty(),
        }
    }
}

/// `s` with every `$NAME` and `${NAME}` replaced, scanning left to right.
/// `${` takes everything up to the next `}` (or the end) as the name;
/// `$` alone takes the longest run of alphanumeric characters and `_`.
pub open spec fn expand_vars(s: Seq<char>, vars: Seq<(Seq<char>, Seq<char>)>) -> Seq<char>
    decreases s.len(),
{
    if s.len() == 0 {
        Seq::empty()
    } else if s[0] != '$' {
        seq![s[0]] + expand_vars(s.drop_first(), vars)
    } else if s.len() >= 2 && s[1] == '{' {
        let body = s.skip(2);
        let k = braced_name_len(body);
        substitution(body.take(k as int), vars) + if k < body.len() {
            expand_vars(body.skip(k + 1 as int), vars)
        } else {
            Seq::empty()
        }
    } else {
        let body = s.skip(1);
        let k = bare_name_len(body);
        proof {
            lemma_bare_name_len_bound(body);
        }
        substitution(body.take(k as int), vars) + expand_vars(body.skip(k as int), vars)
    }
}

/// `word` with a leading `~` replaced by the home directory, when one is known.
pub open spec fn expand_tilde(word: Seq<char>, home: Option<Seq<char>>) -> Seq<char> {
    if word.len() > 0 && word[0] == '~' {
        match home {
            Some(h) => h + word.drop_first(),
            None => word,
        }
    } else {
        word
    }
}

/// The full expansion of `word`: first the home directory, then variables.
pub open spec fn expanded_word(
    word: Seq<char>,
    home: Option<Seq<char>>,
    vars: Seq<(Seq<char>, Seq<char>)>,
) -> Seq<char> {
    expand_vars(expand_tilde(word, home), vars)
}

/// Appends what the variable reference `name` stands for to `res`.
fn push_substitution(res: &mut String, name: &String, env: &Environment)
    ensures
        final(res)@ == old(res)@ + substitution(name@, env.var_list()),
{
    if name.as_str().unicode_len() == 0 {
        push_char(res, '$');
    } else {
        match env.get(name) {
            Some(v) => res.append(v.as_str()),
            None => {
                assert(old(res)@ + Seq::<char>::empty() == old(res)@);
            },
        }
    }
}

/// Replaces variable references in `cs`, as `expand_vars` says.
fn expand_vars_in(cs: &Vec<char>, env: &Environment) -> (res: String)
    ensures
        res@ == expand_vars(cs@, env.var_list()),
{
    let ghost vars = env.var_list();
    let n = cs.len();
    let mut res = String::new();
    let mut i: usize = 0;
    assert(cs@.skip(0) == cs@);
    while i < n
        invariant
            i <= n,
            n == cs.len(),
            vars == env.var_list(),
            expand_vars(cs@, vars) == res@ + expand_vars(cs@.skip(i as int), vars),
        decreases n - i,
    {
        let ghost s = cs@.skip(i as int);
        let ghost before = res@;
        let c = cs[i];
        if c != '$' {
            push_char(&mut res, c);
            assert(s.drop_first() == cs@.skip(i + 1));
            assert(before + expand_vars(s, vars) == res@ + expand_vars(cs@.skip(i + 1), vars));
            i = i + 1;
        } else if i + 1 < n && cs[i + 1] == '{' {
            let start = i + 2;
            let mut name = String::new();
            let mut j: usize = start;
            assert(cs@.subrange(start as int, start as int) == Seq::<char>::empty());
            while j < n && cs[j] != '}'
                invariant
                    start <= j <= n,
                    n == cs.len(),
                    name@ == cs@.subrange(start as int, j as int),
                    braced_name_len(cs@.skip(start as int)) == (j - start) + braced_name_len(
                        cs@.skip(j as int),
                    ),
                decreases n - j,
            {
                assert(cs@.skip(j as int).drop_first() == cs@.skip(j + 1));
                push_char(&mut name, cs[j]);
                assert(cs@.subrange(start as int, j + 1) == cs@.subrange(start as int, j as int).push(cs@[j as int]));
                j = j + 1;
            }
            let ghost body = s.skip(2);
            assert(body == cs@.skip(start as int));
            assert(braced_name_len(cs@.skip(j as int)) == 0);
            assert(body.take(j - start) == name@);
            push_substitution(&mut res, &name, env);
            if j < n {
                assert(body.skip(j - start + 1) == cs@.skip(j + 1));
                i = j + 1;
            } else {
                assert(cs@.skip(n as int) == Seq::<char>::empty());
                i = n;
            }
        } else {
            let start = i + 1;
            let mut name = String::new();
            let mut j: usize = start;
            assert(cs@.subrange(start as int, start as int) == Seq::<char>::empty());
            while j < n && (is_alphanumeric(cs[j]) || cs[j] == '_')
                invariant
                    start <= j <= n,
                    n == cs.len(),
                    name@ == cs@.subrange(start as int, j as int),
                    bare_name_len(cs@.skip(start as int)) == (j - start) + bare_name_len(
                        cs@.skip(j as int),
                    ),
                decreases n - j,
            {
                assert(cs@.skip(j as int).drop_first() == cs@.skip(j + 1));
                push_char(&mut name, cs[j]);
                assert(cs@.subrange(start as int, j + 1) == cs@.subrange(start as int, j as int).push(cs@[j as int]));
                j = j + 1;
            }
            let ghost body = s.skip(1);
            assert(body == cs@.skip(start as int));
            assert(bare_name_len(cs@.skip(j as int)) == 0);
            assert(body.take(j - start) == name@);
            push_substitution(&mut res, &name, env);
            assert(body.skip(j - start) == cs@.skip(j as int));
            i = j;
        }
    }
    assert(cs@.skip(n as int) == Seq::<char>::empty());
    res
}

/// Expands `word` in `env`: a leading `~` becomes the home directory (when
/// one is known), then every `$NAME` and `${NAME}` becomes the variable's value.
pub fn expand_word(word: &str, env: &Environment) -> (res: String)
    ensures
        res@ == expanded_word(word@, env.home_chars(), env.var_list()),
{
    let cs = chars_of(word);
    if cs.len() > 0 && cs[0] == '~' {
        match &env.home {
            Some(h) => {
                let mut joined = chars_of(h.as_str());
                let mut k: usize = 1;
                let ghost hv = joined@;
                assert(cs@.subrange(1, 1) == Seq::<char>::empty());
                while k < cs.len()
                    invariant
                        1 <= k <= cs.len(),
                        joined@ == hv + cs@.subrange(1, k as int),
                    decreases cs.len() - k,
                {
                    joined.push(cs[k]);
                    assert(cs@.subrange(1, k + 1) == cs@.subrange(1, k as int).push(cs@[k as int]));
                    k = k + 1;
                }
                assert(cs@.subrange(1, cs.len() as int) == cs@.drop_first());
                expand_vars_in(&joined, env)
            },
            None => expand_vars_in(&cs, env),
        }
    } else {
        expand_vars_in(&cs, env)
    }
}

/// Text without a `$` is left as it is by variable expansion.
pub proof fn lemma_expand_vars_plain(s: Seq<char>, vars: Seq<(Seq<char>, Seq<char>)>)
    requires
        !s.contains('$'),
    ensures
        expand_vars(s, vars) == s,
    decreases s.len(),
{
    if s.len() > 0 {
        assert(s[0] != '$') by {
            assert(s.contains(s[0]));
        }
        assert(!s.drop_first().contains('$')) by {
            if s.drop_first().contains('$') {
                let k = choose|k: int| 0 <= k < s.drop_first().len() && s.drop_first()[k] == '$';
                assert(s[k + 1] == '$');
            }
        }
        lemma_expand_vars_plain(s.drop_first(), vars);
        assert(seq![s[0]] + s.drop_first() == s);
    }
}

/// A word with no `$` that does not start with `~` expands to itself,
/// whatever the environment.
pub proof fn law_plain_word_unchanged(
    word: Seq<char>,
    home: Option<Seq<char>>,
    vars: Seq<(Seq<char>, Seq<char>)>,
)
    requires
        !word.contains('$'),
        !(word.len() > 0 && word[0] == '~'),
    ensures
        expanded_word(word, home, vars) == word,
{
    lemma_expand_vars_plain(word, vars);
}

/// `bare_name_len` of a name made only of name characters, followed by `rest`
/// that does not start with one, is the length of the name.
proof fn lemma_bare_name_len_of(name: Seq<char>, rest: Seq<char>)
    requires
        forall|i: int| 0 <= i < name.len() ==> is_name_char(#[trigger] name[i]),
        !(rest.len() > 0 && is_name_char(rest[0])),
    ensures
        bare_name_len(name + rest) == name.len(),
    decreases name.len(),
{
    if name.len() > 0 {
        assert((name + rest).drop_first() == name.drop_first() + rest);
        lemma_bare_name_len_of(name.drop_first(), rest);
    } else {
        assert(name + rest == rest);
    }
}

/// `braced_name_len` of a name without `}` followed by `}` is the name's length.
proof fn lemma_braced_name_len_of(name: Seq<char>, rest: Seq<char>)
    requires
        forall|i: int| 0 <= i < name.len() ==> #[trigger] name[i] != '}',
        rest.len() > 0 && rest[0] == '}',
    ensures
        braced_name_len(name + rest) == name.len(),
    decreases name.len(),
{
    if name.len() > 0 {
        assert((name + rest).drop_first() == name.drop_first() + rest);
        lemma_braced_name_len_of(name.drop_first(), rest);
    } else {
        assert(name + rest == rest);
    }
}

/// `$NAME` and `${NAME}` expand to the same text, the variable's value (or
/// nothing when it is unset), for a name of alphanumeric characters and `_`.
pub proof fn law_braced_and_bare_agree(
    name: Seq<char>,
    home: Option<Seq<char>>,
    vars: Seq<(Seq<char>, Seq<char>)>,
)
    requires
        name.len() > 0,
        forall|i: int| 0 <= i < name.len() ==> is_name_char(#[trigger] name[i]),
    ensures
        expanded_word(seq!['$'] + name, home, vars) == substitution(name, vars),
        expanded_word(seq!['$', '{'] + name + seq!['}'], home, vars) == substitution(name, vars),
{
    assert forall|i: int| 0 <= i < name.len() implies #[trigger] name[i] != '{' && name[i] != '}' by {
        assert(is_name_char(name[i]));
    }
    let bare = seq!['$'] + name;
    assert(bare[1] == name[0]);
    assert(expand_vars(Seq::<char>::empty(), vars) == Seq::<char>::empty());
    assert(bare.skip(1) == name + Seq::<char>::empty());
    lemma_bare_name_len_of(name, Seq::<char>::empty());
    assert(bare.skip(1).take(name.len() as int) == name);
    assert(bare.skip(1).skip(name.len() as int) == Seq::<char>::empty());
    assert(expand_vars(bare, vars) == substitution(name, vars) + Seq::<char>::empty());
    assert(substitution(name, vars) + Seq::<char>::empty() == substitution(name, vars));

    let braced = seq!['$', '{'] + name + seq!['}'];
    assert(braced.skip(2) == name + seq!['}']);
    lemma_braced_name_len_of(name, seq!['}']);
    assert(braced.skip(2).take(name.len() as int) == name);
    assert(braced.skip(2).skip(name.len() + 1 as int) == Seq::<char>::empty());
    assert(expand_vars(braced, vars) == substitution(name, vars) + expand_vars(Seq::<char>::empty(), vars));
    assert(substitution(name, vars) + Seq::<char>::empty() == substitution(name, vars));
}

/// An ASCII letter, an ASCII digit, or `_`.
pub open spec fn is_ascii_word_char(c: char) -> bool {
    ('a' <= c && c <= 'z') || ('A' <= c && c <= 'Z') || ('0' <= c && c <= '9') || c == '_'
}

/// A bare `$NAME`, where the name is made of ASCII letters, digits and `_`
/// (digits anywhere in it), is replaced by the value of the whole name; the
/// text after the name, starting at a character that cannot continue it,
/// is expanded on its own. An unset name gives nothing.
pub proof fn law_bare_name_is_whole(
    name: Seq<char>,
    rest: Seq<char>,
    home: Option<Seq<char>>,
    vars: Seq<(Seq<char>, Seq<char>)>,
)
    requires
        name.len() > 0,
        forall|i: int| 0 <= i < name.len() ==> is_ascii_word_char(#[trigger] name[i]),
        rest.len() == 0 || (rest[0] <= '\x7f' && !is_ascii_word_char(rest[0])),
    ensures
        expanded_word(seq!['$'] + name + rest, home, vars) == match lookup(vars, name) {
            Some(v) => v,
            None => Seq::<char>::empty(),
        } + expand_vars(rest, vars),
        lookup(vars, name) is None ==> expanded_word(seq!['$'] + name + rest, home, vars)
            == expand_vars(rest, vars),
{
    assert forall|i: int| 0 <= i < name.len() implies is_name_char(#[trigger] name[i]) by {
        assert(is_ascii_word_char(name[i]));
    }
    assert(!(rest.len() > 0 && is_name_char(rest[0])));
    let s = seq!['$'] + name + rest;
    assert(s[0] == '$');
    assert(s[1] == name[0]);
    assert(name[0] != '{') by {
        assert(is_ascii_word_char(name[0]));
    }
    let body = s.skip(1);
    assert(body == name + rest);
    lemma_bare_name_len_of(name, rest);
    assert(body.take(name.len() as int) == name);
    assert(body.skip(name.len() as int) == rest);
    let v = match lookup(vars, name) {
        Some(v) => v,
        None => Seq::<char>::empty(),
    };
    assert(substitution(name, vars) == v);
    assert(expand_vars(s, vars) == v + expand_vars(rest, vars));
    if lookup(vars, name) is None {
        assert(Seq::<char>::empty() + expand_vars(rest, vars) == expand_vars(rest, vars));
    }
}

} // verus!

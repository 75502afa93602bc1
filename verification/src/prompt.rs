//! The prompt shown before each line is read.

use vstd::prelude::*;
use crate::text::{chars_of, decimal, push_decimal, slice_chars, string_of};
use crate::state::{Environment, lookup};

verus! {

broadcast use vstd::string::group_string_axioms;

/// The directory as the prompt shows it: when it lies under the home
/// directory, the home part is written `~`.
pub open spec fn shown_dir(cwd: Seq<char>, home: Option<Seq<char>>) -> Seq<char> {
    match home {
        Some(h) => if h.is_prefix_of(cwd) {
            "~"@ + cwd.skip(h.len() as int)
        } else {
            cwd
        },
        None => cwd,
    }
}

/// The user name the prompt shows: the variable `USER`, or `user` when unset.
pub open spec fn shown_user(vars: Seq<(Seq<char>, Seq<char>)>) -> Seq<char> {
    match lookup(vars, "USER"@) {
        Some(u) => u,
        None => "user"@,
    }
}

/// The percentage above which a figure of the dashboard is a warning.
pub const HIGH_LOAD: u64 = 90;

/// The dashboard at the front of the prompt: memory and CPU use in percent,
/// in yellow when either is above the warning level, else in grey.
pub open spec fn status_text(mem_pct: nat, cpu_pct: nat) -> Seq<char> {
    (if mem_pct > HIGH_LOAD || cpu_pct > HIGH_LOAD {
        "\x1b[1;33m"@
    } else {
        "\x1b[1;90m"@
    }) + "[MEM "@ + decimal(mem_pct) + "% CPU "@ + decimal(cpu_pct) + "%]\x1b[0m "@
}

/// The prompt: the dashboard, the user in green, a colon, the directory in
/// blue, then `$ ` in bright white.
pub open spec fn prompt_text(status: Seq<char>, user: Seq<char>, dir: Seq<char>) -> Seq<char> {
    status + "\x1b[1;32m"@ + user + "\x1b[0m:\x1b[1;34m"@ + dir + "\x1b[0m\x1b[1;37m$ \x1b[0m"@
}

/// Whether `p` is a prefix of `s`.
fn starts_with(s: &Vec<char>, p: &Vec<char>) -> (b: bool)
    ensures
        b == p@.is_prefix_of(s@),
{
    if p.len() > s.len() {
        return false;
    }
    let mut i: usize = 0;
    while i < p.len()
        invariant
            i <= p.len() <= s.len(),
            forall|k: int| 0 <= k < i ==> p@[k] == s@[k],
        decreases p.len() - i,
    {
        if p[i] != s[i] {
            return false;
        }
        i = i + 1;
    }
    assert(p@ == s@.take(p.len() as int));
    true
}

/// The prompt for the working directory `cwd` in `env`, with memory and CPU
/// use at `mem_pct` and `cpu_pct` percent.
pub fn prompt(cwd: &str, env: &Environment, mem_pct: u64, cpu_pct: u64) -> (text: String)
    ensures
        text@ == prompt_text(
            status_text(mem_pct as nat, cpu_pct as nat),
            shown_user(env.var_list()),
            shown_dir(cwd@, env.home_chars()),
        ),
{
    let cs = chars_of(cwd);
    let dir = match &env.home {
        Some(h) => {
            let hs = chars_of(h.as_str());
            if starts_with(&cs, &hs) {
                let rest = slice_chars(&cs, hs.len(), cs.len());
                let mut d = String::from_str("~");
                d.append(string_of(&rest).as_str());
                d
            } else {
                String::from_str(cwd)
            }
        },
        None => String::from_str(cwd),
    };
    let user_key = String::from_str("USER");
    let mut text = if mem_pct > HIGH_LOAD || cpu_pct > HIGH_LOAD {
        String::from_str("\x1b[1;33m")
    } else {
        String::from_str("\x1b[1;90m")
    };
    text.append("[MEM ");
    push_decimal(&mut text, mem_pct);
    text.append("% CPU ");
    push_decimal(&mut text, cpu_pct);
    text.append("%]\x1b[0m ");
    text.append("\x1b[1;32m");
    match env.get(&user_key) {
        Some(u) => text.append(u.as_str()),
        None => text.append("user"),
    }
    text.append("\x1b[0m:\x1b[1;34m");
    text.append(dir.as_str());
    text.append("\x1b[0m\x1b[1;37m$ \x1b[0m");
    text
}

/// A directory under the home directory is shown as `~` followed by the
/// rest of its path; one that is not is shown as it is.
pub proof fn law_home_abbreviated(cwd: Seq<char>, home: Seq<char>, rest: Seq<char>)
    ensures
        shown_dir(home + rest, Some(home)) == "~"@ + rest,
        !home.is_prefix_of(cwd) ==> shown_dir(cwd, Some(home)) == cwd,
{
    assert(home.is_prefix_of(home + rest)) by {
        assert((home + rest).take(home.len() as int) == home);
    }
    assert((home + rest).skip(home.len() as int) == rest);
}

} // verus!

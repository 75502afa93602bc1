//! What the shell shows about the project in the working directory.

use vstd::prelude::*;
use crate::text::{chars_of, is_unicode_whitespace, slice_chars, string_of, trim, trim_end, trim_start, trimmed};

verus! {

broadcast use vstd::string::group_string_axioms;

/// The decisions behind the project summary the shell shows.
pub struct Monitor;

/// The kind of project found in a directory.
pub enum ProjectKind {
    Rust,
    Node,
    Python,
    Other,
}

/// The marker that names the branch in a `HEAD` file.
pub open spec fn head_ref_prefix() -> Seq<char> {
    "ref: refs/heads/"@
}

/// `s` with every leading copy of `p` removed (`str::trim_start_matches`).
pub open spec fn strip_prefixes(s: Seq<char>, p: Seq<char>) -> Seq<char>
    decreases s.len(),
{
    if p.len() > 0 && p.is_prefix_of(s) {
        strip_prefixes(s.skip(p.len() as int), p)
    } else {
        s
    }
}

/// The label that stands for a Git repository whose branch is unknown.
pub open spec fn git_repo_label() -> Seq<char> {
    "\u{1f4dc} Git Repo"@
}

/// The Git label for a repository whose `HEAD` file reads `head` (`None`
/// when it cannot be read): the branch it names, else the first seven
/// characters of a detached commit, else the plain repository label.
pub open spec fn git_label(head: Option<Seq<char>>) -> Seq<char> {
    match head {
        Some(c) => if head_ref_prefix().is_prefix_of(c) {
            "\u{e0a0} "@ + trimmed(strip_prefixes(c, head_ref_prefix()))
        } else if trimmed(c).len() > 0 {
            let t = trimmed(c);
            "\u{e0a0} ("@ + (if t.len() > 7 { t.take(7) } else { t }) + ")"@
        } else {
            git_repo_label()
        },
        None => git_repo_label(),
    }
}

/// The largest unit, of `B`, `KB`, `MB`, `GB`, `TB`, in which `bytes` is at
/// least one, counted from `B` as zero.
pub open spec fn unit_index(bytes: nat) -> nat {
    if bytes < 1024 {
        0
    } else if bytes < 1048576 {
        1
    } else if bytes < 1073741824 {
        2
    } else if bytes < 1099511627776 {
        3
    } else {
        4
    }
}

/// The name of size unit `idx`.
pub open spec fn unit_label(idx: nat) -> Seq<char> {
    if idx == 0 {
        "B"@
    } else if idx == 1 {
        "KB"@
    } else if idx == 2 {
        "MB"@
    } else if idx == 3 {
        "GB"@
    } else {
        "TB"@
    }
}

/// The kind of project that a directory's marker files show; the first
/// match wins: `Cargo.toml`, then `package.json`, then `requirements.txt`
/// or `pyproject.toml`.
pub open spec fn project_of(cargo: bool, package: bool, requirements: bool, pyproject: bool) -> ProjectKind {
    if cargo {
        ProjectKind::Rust
    } else if package {
        ProjectKind::Node
    } else if requirements || pyproject {
        ProjectKind::Python
    } else {
        ProjectKind::Other
    }
}

/// ` | ` and the Git label when there is one, else nothing.
pub open spec fn git_suffix(git: Option<Seq<char>>) -> Seq<char> {
    match git {
        Some(g) => " | "@ + g,
        None => Seq::empty(),
    }
}

/// The project summary: the kind of project, the size of its build folder
/// where it has one, and its Git label; `None` for a directory that is
/// neither a known project nor a repository.
pub open spec fn context_text(kind: ProjectKind, size: Seq<char>, git: Option<Seq<char>>) -> Option<
    Seq<char>,
> {
    match kind {
        ProjectKind::Rust => Some("\u{1f980} Rust Project | target: "@ + size + git_suffix(git)),
        ProjectKind::Node => Some(
            "\u{1f4e6} Node.js Project | node_modules: "@ + size + git_suffix(git),
        ),
        ProjectKind::Python => Some("\u{1f40d} Python Project"@ + git_suffix(git)),
        ProjectKind::Other => match git {
            Some(g) => Some("\u{1f4dc} "@ + g),
            None => None,
        },
    }
}

/// Whether `p` is a prefix of `s` from position `at` on.
fn prefix_at(s: &Vec<char>, at: usize, p: &Vec<char>) -> (b: bool)
    requires
        at <= s.len(),
    ensures
        b == p@.is_prefix_of(s@.skip(at as int)),
{
    if p.len() > s.len() - at {
        return false;
    }
    let mut i: usize = 0;
    while i < p.len()
        invariant
            i <= p.len(),
            at + p.len() <= s.len(),
            forall|k: int| 0 <= k < i ==> p@[k] == s@[at + k],
        decreases p.len() - i,
    {
        if p[i] != s[at + i] {
            assert(s@.skip(at as int)[i as int] == s@[at + i]);
            return false;
        }
        i = i + 1;
    }
    assert(p@ == s@.skip(at as int).take(p.len() as int));
    true
}

impl Monitor {
    /// The Git label for a repository whose `HEAD` file holds `head`, or
    /// could not be read (`None`).
    pub fn git_info_from_head(head: Option<&str>) -> (label: String)
        ensures
            label@ == git_label(match head {
                Some(h) => Some(h@),
                None => None,
            }),
    {
        match head {
            None => String::from_str("\u{1f4dc} Git Repo"),
            Some(content) => {
                let cs = chars_of(content);
                let prefix = chars_of("ref: refs/heads/");
                proof {
                    reveal_strlit("ref: refs/heads/");
                }
                if prefix_at(&cs, 0, &prefix) {
                    assert(cs@.skip(0) == cs@);
                    let mut at: usize = prefix.len();
                    assert(strip_prefixes(cs@, prefix@) == strip_prefixes(cs@.skip(at as int), prefix@));
                    while prefix_at(&cs, at, &prefix)
                        invariant
                            at <= cs.len(),
                            prefix@ == head_ref_prefix(),
                            prefix@.len() > 0,
                            strip_prefixes(cs@, prefix@) == strip_prefixes(cs@.skip(at as int), prefix@),
                        decreases cs.len() - at,
                    {
                        assert(cs@.skip(at as int).skip(prefix@.len() as int) == cs@.skip(at + prefix@.len()));
                        at = at + prefix.len();
                    }
                    let rest = string_of(&slice_chars(&cs, at, cs.len()));
                    assert(cs@.subrange(at as int, cs.len() as int) == cs@.skip(at as int));
                    let branch = trim(rest.as_str());
                    let mut label = String::from_str("\u{e0a0} ");
                    label.append(branch.as_str());
                    label
                } else {
                    let t = trim(content);
                    let tc = chars_of(t.as_str());
                    if tc.len() > 0 {
                        let shown = if tc.len() > 7 {
                            slice_chars(&tc, 0, 7)
                        } else {
                            tc
                        };
                        assert(tc@.len() > 7 ==> tc@.subrange(0, 7) == tc@.take(7));
                        let mut label = String::from_str("\u{e0a0} (");
                        label.append(string_of(&shown).as_str());
                        label.append(")");
                        label
                    } else {
                        String::from_str("\u{1f4dc} Git Repo")
                    }
                }
            },
        }
    }

    /// The index of the unit a size of `bytes` is shown in.
    pub fn size_unit_index(bytes: u64) -> (idx: usize)
        ensures
            idx == unit_index(bytes as nat),
    {
        if bytes < 1024 {
            0
        } else if bytes < 1048576 {
            1
        } else if bytes < 1073741824 {
            2
        } else if bytes < 1099511627776 {
            3
        } else {
            4
        }
    }

    /// The name of size unit `idx`.
    pub fn unit_name(idx: usize) -> (name: String)
        ensures
            name@ == unit_label(idx as nat),
    {
        if idx == 0 {
            String::from_str("B")
        } else if idx == 1 {
            String::from_str("KB")
        } else if idx == 2 {
            String::from_str("MB")
        } else if idx == 3 {
            String::from_str("GB")
        } else {
            String::from_str("TB")
        }
    }

    /// The kind of project that the marker files found in a directory show.
    pub fn project_kind(cargo: bool, package: bool, requirements: bool, pyproject: bool) -> (kind:
        ProjectKind)
        ensures
            kind == project_of(cargo, package, requirements, pyproject),
    {
        if cargo {
            ProjectKind::Rust
        } else if package {
            ProjectKind::Node
        } else if requirements || pyproject {
            ProjectKind::Python
        } else {
            ProjectKind::Other
        }
    }

    /// The project summary for a project of kind `kind` whose build folder
    /// takes `size` (as text) and whose Git label is `git`.
    pub fn context_line(kind: ProjectKind, size: &str, git: Option<&str>) -> (line: Option<String>)
        ensures
            match (line, context_text(
                kind,
                size@,
                match git {
                    Some(g) => Some(g@),
                    None => None,
                },
            )) {
                (Some(l), Some(t)) => l@ == t,
                (None, None) => true,
                _ => false,
            },
    {
        let ghost g = match git {
            Some(g) => Some(g@),
            None => None::<Seq<char>>,
        };
        let mut suffix = String::new();
        match git {
            Some(x) => {
                suffix.append(" | ");
                suffix.append(x);
            },
            None => {},
        }
        assert(suffix@ == git_suffix(g));
        match kind {
            ProjectKind::Rust => {
                let mut l = String::from_str("\u{1f980} Rust Project | target: ");
                l.append(size);
                l.append(suffix.as_str());
                Some(l)
            },
            ProjectKind::Node => {
                let mut l = String::from_str("\u{1f4e6} Node.js Project | node_modules: ");
                l.append(size);
                l.append(suffix.as_str());
                Some(l)
            },
            ProjectKind::Python => {
                let mut l = String::from_str("\u{1f40d} Python Project");
                l.append(suffix.as_str());
                Some(l)
            },
            ProjectKind::Other => match git {
                Some(x) => {
                    let mut l = String::from_str("\u{1f4dc} ");
                    l.append(x);
                    Some(l)
                },
                None => None,
            },
        }
    }
}

/// Text that starts with a non-whitespace character keeps it when trailing
/// whitespace is removed.
proof fn lemma_trim_end_keeps_first(t: Seq<char>)
    requires
        t.len() > 0,
        !is_unicode_whitespace(t[0]),
    ensures
        trim_end(t).len() > 0,
    decreases t.len(),
{
    if is_unicode_whitespace(t.last()) {
        assert(t.len() >= 2);
        assert(t.drop_last()[0] == t[0]);
        lemma_trim_end_keeps_first(t.drop_last());
    }
}

/// A repository whose `HEAD` cannot be read, or holds only whitespace, is
/// shown with the plain repository label.
pub proof fn law_blank_head_gives_plain_label(content: Seq<char>)
    ensures
        git_label(None) == git_repo_label(),
        trimmed(content).len() == 0 ==> git_label(Some(content)) == git_repo_label(),
{
    reveal_strlit("ref: refs/heads/");
    if head_ref_prefix().is_prefix_of(content) {
        assert(content[0] == head_ref_prefix()[0]);
        assert(content[0] == 'r');
        assert(trim_start(content) == content);
        lemma_trim_end_keeps_first(content);
    }
}

/// A directory with `Cargo.toml` is a Rust project; failing that, one with
/// `package.json` is a Node.js project; failing both, one with
/// `requirements.txt` or with `pyproject.toml` (either suffices) is a Python
/// project; any other directory is no known project.
pub proof fn law_project_kinds(cargo: bool, package: bool, requirements: bool, pyproject: bool)
    ensures
        cargo ==> project_of(cargo, package, requirements, pyproject) == ProjectKind::Rust,
        !cargo && package ==> project_of(cargo, package, requirements, pyproject) == ProjectKind::Node,
        !cargo && !package ==> (project_of(cargo, package, requirements, pyproject)
            == ProjectKind::Python <==> requirements || pyproject),
        !cargo && !package && !requirements && !pyproject ==> project_of(
            cargo,
            package,
            requirements,
            pyproject,
        ) == ProjectKind::Other,
        project_of(false, false, true, false) == ProjectKind::Python,
        project_of(false, false, false, true) == ProjectKind::Python,
{
}

} // verus!

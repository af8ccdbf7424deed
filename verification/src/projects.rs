//! The registered projects: a project is a named folder. Also where the list is kept.
use crate::text::{
    chars_of, is_space, lemma_trim_idempotent, lemma_trim_keeps_order, lemma_trim_of_unspaced, owned,
    push_char, split_chars, split_on, string_of, trim, trim_str,
};
use vstd::prelude::*;
use vstd::slice::slice_to_vec;
use vstd::string::StrSliceExecFns;

verus! {

broadcast use vstd::string::group_string_axioms;

/// A project: a display name, the folder it lives in, and what to type into
/// a new session for it.
#[derive(Debug, Clone, PartialEq, Eq)]
pub struct Project {
    pub name: String,
    pub path: String,
    /// Typed into a new session for this project; blank for the default
    /// start command of the settings.
    pub command: String,
}

/// The mathematical value of a [`Project`].
pub struct ProjectView {
    pub name: Seq<char>,
    pub path: Seq<char>,
    pub command: Seq<char>,
}

impl View for Project {
    type V = ProjectView;

    open spec fn view(&self) -> ProjectView {
        ProjectView { name: self.name@, path: self.path@, command: self.command@ }
    }
}

// ---------------------------------------------------------------------------
// Folder names
// ---------------------------------------------------------------------------

/// The last piece of a `/`-separated path that names something: pieces that
/// are empty or `.` name nothing.
pub open spec fn last_component(pieces: Seq<Seq<char>>) -> Option<Seq<char>>
    decreases pieces.len(),
{
    if pieces.len() == 0 {
        None
    } else if pieces.last().len() == 0 || pieces.last() == seq!['.'] {
        last_component(pieces.drop_last())
    } else {
        Some(pieces.last())
    }
}

/// The final component of a path, when it is a name: none for a path that
/// is empty, the root, made of `.` only, or that ends in `..`.
pub open spec fn file_name(path: Seq<char>) -> Option<Seq<char>> {
    match last_component(split_on(path, '/')) {
        Some(c) => if c == seq!['.', '.'] {
            None
        } else {
            Some(c)
        },
        None => None,
    }
}

/// The name a project gets from its folder: the folder's own name, or the
/// whole path when the path has no final name.
pub open spec fn default_name(path: Seq<char>) -> Seq<char> {
    match file_name(path) {
        Some(n) => n,
        None => path,
    }
}

/// `:` and `.` turned into `_`: tmux refuses them in session names.
pub open spec fn tmux_safe_char(c: char) -> char {
    if c == ':' || c == '.' {
        '_'
    } else {
        c
    }
}

/// The tmux session name for a project name.
pub open spec fn session_name_of(name: Seq<char>) -> Seq<char> {
    let t = trim(name.map_values(|c: char| tmux_safe_char(c)));
    if t.len() == 0 {
        "project"@
    } else {
        t
    }
}

/// Whether `c` cannot stand in a tmux session name.
pub open spec fn forbidden_in_session(c: char) -> bool {
    c == ':' || c == '.'
}

/// The final component of `path`, as `Path::file_name` gives it on Unix.
pub fn path_file_name(path: &str) -> (r: Option<String>)
    ensures
        match r {
            Some(n) => file_name(path@) == Some(n@),
            None => file_name(path@) is None,
        },
{
    let v = chars_of(path);
    let pieces = split_chars(&v, '/');
    let ghost ps = split_on(path@, '/');
    assert(pieces@.map_values(|x: Vec<char>| x@) == ps);
    let mut i = pieces.len();
    assert(ps.take(ps.len() as int) =~= ps);
    while i > 0
        invariant
            ps == split_on(path@, '/'),
            i <= pieces.len() == ps.len(),
            pieces@.map_values(|x: Vec<char>| x@) == ps,
            last_component(ps) == last_component(ps.take(i as int)),
        decreases i,
    {
        let piece = &pieces[i - 1];
        assert(piece@ == ps[i - 1]);
        proof {
            assert(ps.take(i as int).drop_last() =~= ps.take(i - 1));
            assert(ps.take(i as int).last() == ps[i - 1]);
        }
        let empty_or_dot = piece.len() == 0 || (piece.len() == 1 && piece[0] == '.');
        proof {
            if piece.len() == 1 {
                if piece@[0] == '.' {
                    assert(piece@ =~= seq!['.']);
                } else {
                    assert(piece@ != seq!['.']);
                }
            } else if piece.len() != 0 {
                assert(piece@.len() != seq!['.'].len());
            }
        }
        if !empty_or_dot {
            assert(last_component(ps) == Some(piece@));
            let is_parent = piece.len() == 2 && piece[0] == '.' && piece[1] == '.';
            proof {
                if piece.len() == 2 && piece@[0] == '.' && piece@[1] == '.' {
                    assert(piece@ =~= seq!['.', '.']);
                } else if piece.len() == 2 {
                    assert(piece@ != seq!['.', '.']) by {
                        if piece@[0] != '.' {
                            assert(piece@[0] != seq!['.', '.'][0]);
                        } else {
                            assert(piece@[1] != seq!['.', '.'][1]);
                        }
                    }
                } else {
                    assert(piece@.len() != seq!['.', '.'].len());
                }
            }
            if is_parent {
                return None;
            }
            return Some(string_of(piece));
        }
        i -= 1;
    }
    assert(ps.take(0) =~= Seq::<Seq<char>>::empty());
    None
}

impl Project {
    /// A copy of the project.
    pub fn duplicate(&self) -> (r: Project)
        ensures
            r@ == self@,
    {
        Project { name: self.name.clone(), path: self.path.clone(), command: self.command.clone() }
    }

    /// A project for `path`, named after the folder: its final component, or
    /// the whole path where there is none. It has no start command of its own.
    pub fn from_path(path: String) -> (p: Project)
        ensures
            p.path@ == path@,
            p.name@ == default_name(path@),
            p.command@.len() == 0,
    {
        let name = match path_file_name(path.as_str()) {
            Some(n) => n,
            None => path.clone(),
        };
        Project { name, path, command: String::new() }
    }

    /// The tmux session name derived from the project name: `:` and `.`
    /// become `_`, surrounding white space goes, and an empty result becomes
    /// `project`.
    pub fn session_name(&self) -> (s: String)
        ensures
            s@ == session_name_of(self.name@),
            s@.len() > 0,
            forall|i: int| 0 <= i < s@.len() ==> !forbidden_in_session(#[trigger] s@[i]),
    {
        let v = chars_of(self.name.as_str());
        let mut mapped = String::new();
        let mut i: usize = 0;
        while i < v.len()
            invariant
                i <= v.len(),
                v@ == self.name@,
                mapped@ == v@.take(i as int).map_values(|c: char| tmux_safe_char(c)),
            decreases v.len() - i,
        {
            let c = v[i];
            let d = if c == ':' || c == '.' {
                '_'
            } else {
                c
            };
            push_char(&mut mapped, d);
            assert(v@.take(i + 1).map_values(|c: char| tmux_safe_char(c)) =~= v@.take(
                i as int,
            ).map_values(|c: char| tmux_safe_char(c)).push(d));
            i += 1;
        }
        assert(v@.take(v@.len() as int) =~= v@);
        let t = trim_str(mapped.as_str());
        proof {
            lemma_session_name_allowed(self.name@);
        }
        if t.as_str().is_empty() {
            owned("project")
        } else {
            t
        }
    }
}

// ---------------------------------------------------------------------------
// Where the list is kept
// ---------------------------------------------------------------------------

/// The bytes of ASCII text, one per character.
pub open spec fn ascii_bytes(s: Seq<char>) -> Seq<u8> {
    s.map_values(|c: char| c as u8)
}

/// The byte of `/`.
pub open spec fn slash() -> u8 {
    47u8
}

/// `path` with `comp` appended as a further component, as `PathBuf::push`
/// does for a relative component on Unix: a `/` goes between them unless
/// `path` is empty or already ends in one. Paths are taken as the bytes of
/// their OS encoding, so a name that is not UTF-8 stays as it is.
pub open spec fn join_path(path: Seq<u8>, comp: Seq<u8>) -> Seq<u8> {
    if path.len() == 0 {
        comp
    } else if path.last() == slash() {
        path + comp
    } else {
        path.push(slash()) + comp
    }
}

/// The project list file under the configuration folder `dir`, or under the
/// current folder when there is none.
pub open spec fn config_file_in(dir: Option<Seq<u8>>) -> Seq<u8> {
    let base = match dir {
        Some(d) => d,
        None => ascii_bytes("."@),
    };
    join_path(join_path(base, ascii_bytes("tmux-gui"@)), ascii_bytes("projects.json"@))
}

/// The bytes of an optional path.
pub open spec fn opt_bytes(o: Option<Vec<u8>>) -> Option<Seq<u8>> {
    match o {
        Some(v) => Some(v@),
        None => None,
    }
}

/// The bytes of the ASCII text `s`.
fn ascii_bytes_of(s: &str) -> (b: Vec<u8>)
    requires
        s.is_ascii(),
    ensures
        b@ == ascii_bytes(s@),
{
    broadcast use vstd::string::is_ascii_spec_bytes;

    let b = s.as_bytes_vec();
    assert(b@ =~= ascii_bytes(s@));
    b
}

/// `path` joined with the relative component `comp`.
pub fn join(path: &[u8], comp: &[u8]) -> (r: Vec<u8>)
    ensures
        r@ == join_path(path@, comp@),
{
    let mut r = slice_to_vec(path);
    if r.len() > 0 && r[r.len() - 1] != 47u8 {
        r.push(47u8);
    }
    let mut tail = slice_to_vec(comp);
    r.append(&mut tail);
    r
}

/// `dirs::config_dir`: the user's configuration folder, as the bytes of its
/// OS encoding. Which folder comes back depends on the environment
/// (`XDG_CONFIG_HOME`, `HOME`), so nothing is stated of it.
#[verifier::external_body]
fn config_dir() -> Option<Vec<u8>> {
    match dirs::config_dir() {
        Some(p) => Some(p.into_os_string().into_encoded_bytes()),
        None => None,
    }
}

/// The project list file for the configuration folder `dir` (the bytes of
/// its OS encoding).
pub fn config_path_in(dir: Option<Vec<u8>>) -> (r: Vec<u8>)
    ensures
        r@ == config_file_in(opt_bytes(dir)),
{
    proof {
        reveal_strlit(".");
        reveal_strlit("tmux-gui");
        reveal_strlit("projects.json");
    }
    let base = match dir {
        Some(d) => d,
        None => ascii_bytes_of("."),
    };
    let folder = join(base.as_slice(), ascii_bytes_of("tmux-gui").as_slice());
    join(folder.as_slice(), ascii_bytes_of("projects.json").as_slice())
}

/// The file that holds the project list, as the bytes of its OS encoding:
/// `tmux-gui/projects.json` in the user's configuration folder
/// (`~/.config` on Linux), or in the current folder when there is none.
/// Which folder that is comes from the environment through
/// `dirs::config_dir`, so the contract says only that the result is
/// [`config_file_in`] of some folder; [`config_path_in`] states it exactly
/// for a given folder.
pub fn config_path() -> (r: Vec<u8>)
    ensures
        exists|dir: Option<Seq<u8>>| #[trigger] config_file_in(dir) == r@,
{
    let dir = config_dir();
    let ghost d = opt_bytes(dir);
    let r = config_path_in(dir);
    assert(config_file_in(d) == r@);
    r
}

/// A path whose last component is a name (not empty, `.` or `..`) has that
/// name as its file name, whatever folders lead to it.
pub proof fn lemma_default_name_is_last_component(dir: Seq<char>, n: Seq<char>)
    requires
        n.len() > 0,
        !n.contains('/'),
        n != seq!['.'],
        n != seq!['.', '.'],
    ensures
        default_name(dir + seq!['/'] + n) == n,
        default_name(n) == n,
{
    crate::text::lemma_split_on_single(n, '/');
    crate::text::lemma_split_on_join(dir, n, '/');
    let ps = split_on(dir + seq!['/'] + n, '/');
    assert(ps.last() == n);
    assert(split_on(n, '/').last() == n);
}

// ---------------------------------------------------------------------------
// Laws of session names
// ---------------------------------------------------------------------------

proof fn lemma_project_literal()
    ensures
        "project"@.len() == 7,
        forall|i: int| 0 <= i < 7 ==> !forbidden_in_session(#[trigger] "project"@[i]),
        forall|i: int| 0 <= i < 7 ==> !is_space(#[trigger] "project"@[i]),
{
    reveal_strlit("project");
}

/// A session name has a character and holds no `:` or `.`.
pub proof fn lemma_session_name_allowed(name: Seq<char>)
    ensures
        session_name_of(name).len() > 0,
        forall|i: int|
            0 <= i < session_name_of(name).len() ==> !forbidden_in_session(
                #[trigger] session_name_of(name)[i],
            ),
{
    let m = name.map_values(|c: char| tmux_safe_char(c));
    let off = lemma_trim_keeps_order(m);
    lemma_project_literal();
    let t = trim(m);
    if t.len() > 0 {
        assert forall|i: int| 0 <= i < t.len() implies !forbidden_in_session(#[trigger] t[i]) by {
            assert(t[i] == m[i + off]);
        }
    }
}

/// Deriving a session name from a session name changes nothing.
pub proof fn lemma_session_name_idempotent(name: Seq<char>)
    ensures
        session_name_of(session_name_of(name)) == session_name_of(name),
{
    let s = session_name_of(name);
    lemma_session_name_allowed(name);
    let m = s.map_values(|c: char| tmux_safe_char(c));
    assert(m =~= s) by {
        assert forall|i: int| 0 <= i < s.len() implies m[i] == s[i] by {
            assert(!forbidden_in_session(s[i]));
        }
    }
    let m0 = name.map_values(|c: char| tmux_safe_char(c));
    if trim(m0).len() == 0 {
        lemma_project_literal();
        lemma_trim_of_unspaced(s);
    } else {
        lemma_trim_idempotent(m0);
    }
}

} // verus!

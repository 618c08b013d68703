//! Choosing an editor and deciding whether a file may be opened with it.

use vstd::prelude::*;
use vstd::utf8::{decode_utf8, valid_utf8};
use crate::text::{chars_of, string_from_chars};
use crate::error::FileManagerError;
use crate::path::{has_parent_component, has_parent_piece};

verus! {

/// Get default editor fallback: `nano`.
pub fn get_default_editor() -> (r: String)
    ensures
        r@ == "nano"@,
{
    String::from_str("nano")
}

/// The editor named by the environment: `$EDITOR` when set and not empty,
/// else `$VISUAL` when set and not empty.
pub fn editor_from_env(editor_var: Option<String>, visual_var: Option<String>) -> (r: Option<String>)
    ensures
        match editor_var {
            Some(e) if e@.len() > 0 => r == Some(e),
            _ => match visual_var {
                Some(v) if v@.len() > 0 => r == Some(v),
                _ => r is None,
            },
        },
{
    if let Some(e) = editor_var {
        if !e.as_str().is_empty() {
            return Some(e);
        }
    }
    if let Some(v) = visual_var {
        if !v.as_str().is_empty() {
            return Some(v);
        }
    }
    None
}

/// The preferred editor: the one the environment names (see
/// `editor_from_env`), else the first available one.
pub fn preferred_editor(from_env: Option<String>, available: &Vec<String>) -> (r: Option<String>)
    ensures
        from_env is Some ==> r == from_env,
        from_env is None && available@.len() > 0 ==> r == Some(available@[0]),
        from_env is None && available@.len() == 0 ==> r is None,
{
    match from_env {
        Some(e) => Some(e),
        None => {
            if available.len() > 0 {
                Some(available[0].clone())
            } else {
                None
            }
        },
    }
}

/// The editor a file is opened with when the user may choose: the first
/// available editor, or the current one when none is available.
pub fn choose_editor(available: &Vec<String>, current: &String) -> (r: String)
    ensures
        available@.len() == 0 ==> r == *current,
        available@.len() > 0 ==> r == available@[0],
{
    if available.len() == 0 {
        current.clone()
    } else {
        available[0].clone()
    }
}

/// `char::is_whitespace`: the Unicode `White_Space` characters.
pub open spec fn is_white_space(c: char) -> bool {
    let u = c as u32;
    ||| 0x09 <= u <= 0x0D
    ||| u == 0x20
    ||| u == 0x85
    ||| u == 0xA0
    ||| u == 0x1680
    ||| 0x2000 <= u <= 0x200A
    ||| u == 0x2028
    ||| u == 0x2029
    ||| u == 0x202F
    ||| u == 0x205F
    ||| u == 0x3000
}

fn white_space(c: char) -> (r: bool)
    ensures
        r == is_white_space(c),
{
    let u = c as u32;
    (0x09 <= u && u <= 0x0D) || u == 0x20 || u == 0x85 || u == 0xA0 || u == 0x1680 || (0x2000 <= u
        && u <= 0x200A) || u == 0x2028 || u == 0x2029 || u == 0x202F || u == 0x205F || u == 0x3000
}

/// `str::trim`: the text without leading and trailing white space.
pub open spec fn is_trim_of(t: Seq<char>, s: Seq<char>) -> bool {
    exists|a: int, b: int|
        0 <= a <= b <= s.len() && t == s.subrange(a, b) && (forall|i: int|
            0 <= i < a ==> is_white_space(#[trigger] s[i])) && (forall|i: int|
            b <= i < s.len() ==> is_white_space(#[trigger] s[i])) && (a < b ==> !is_white_space(s[a])
            && !is_white_space(s[b - 1]))
}

/// Trims leading and trailing white space (as `str::trim`).
pub fn trim(s: &str) -> (r: String)
    ensures
        is_trim_of(r@, s@),
{
    let v = chars_of(s);
    let mut a: usize = 0;
    while a < v.len() && white_space(v[a])
        invariant
            a <= v@.len(),
            forall|i: int| 0 <= i < a ==> is_white_space(#[trigger] v@[i]),
        decreases v@.len() - a,
    {
        a += 1;
    }
    let mut b: usize = v.len();
    while b > a && white_space(v[b - 1])
        invariant
            a <= b <= v@.len(),
            forall|i: int| b <= i < v@.len() ==> is_white_space(#[trigger] v@[i]),
            a < v@.len() ==> !is_white_space(v@[a as int]),
        decreases b - a,
    {
        b -= 1;
    }
    let mut out: Vec<char> = Vec::new();
    let mut i = a;
    while i < b
        invariant
            a <= i <= b <= v@.len(),
            out@ == v@.subrange(a as int, i as int),
        decreases b - i,
    {
        out.push(v[i]);
        assert(v@.subrange(a as int, i + 1) =~= v@.subrange(a as int, i as int).push(v@[i as int]));
        i += 1;
    }
    let r = string_from_chars(out.as_slice());
    assert(is_trim_of(r@, s@)) by {
        assert(r@ == v@.subrange(a as int, b as int));
    }
    r
}

/// What `String::from_utf8_lossy` returns for some bytes: their decoding,
/// with replacement characters for invalid sequences.
pub uninterp spec fn utf8_lossy(bytes: Seq<u8>) -> Seq<char>;

/// Calls `String::from_utf8_lossy`: the result is `utf8_lossy` of the bytes,
/// and, as its documentation says, just their decoding when they are valid
/// UTF-8.
#[verifier::external_body]
fn from_utf8_lossy(bytes: &[u8]) -> (r: String)
    ensures
        r@ == utf8_lossy(bytes@),
        valid_utf8(bytes@) ==> r@ == decode_utf8(bytes@),
{
    String::from_utf8_lossy(bytes).into_owned()
}

/// The editor path that a successful `which <editor>` printed, if any: its
/// output decoded and trimmed, when neither the output nor the trimmed text
/// is empty.
pub fn editor_from_which_output(success: bool, stdout: &[u8]) -> (r: Option<String>)
    ensures
        !success || stdout@.len() == 0 ==> r is None,
        success && stdout@.len() > 0 ==> match r {
            Some(p) => p@.len() > 0 && is_trim_of(p@, utf8_lossy(stdout@)),
            None => forall|t: Seq<char>| is_trim_of(t, utf8_lossy(stdout@)) ==> t.len() == 0,
        },
{
    if !success || stdout.len() == 0 {
        return None;
    }
    let text = from_utf8_lossy(stdout);
    let path = trim(text.as_str());
    if path.as_str().is_empty() {
        proof {
            assert forall|t: Seq<char>| is_trim_of(t, utf8_lossy(stdout@)) implies t.len() == 0 by {
                lemma_trim_unique(t, path@, text@);
            }
        }
        None
    } else {
        Some(path)
    }
}

proof fn lemma_trim_unique(t1: Seq<char>, t2: Seq<char>, s: Seq<char>)
    requires
        is_trim_of(t1, s),
        is_trim_of(t2, s),
        t2.len() == 0,
    ensures
        t1.len() == 0,
{
    let (a1, b1) = choose|a: int, b: int|
        0 <= a <= b <= s.len() && t1 == s.subrange(a, b) && (forall|i: int|
            0 <= i < a ==> is_white_space(#[trigger] s[i])) && (forall|i: int|
            b <= i < s.len() ==> is_white_space(#[trigger] s[i])) && (a < b ==> !is_white_space(s[a])
            && !is_white_space(s[b - 1]));
    let (a2, b2) = choose|a: int, b: int|
        0 <= a <= b <= s.len() && t2 == s.subrange(a, b) && (forall|i: int|
            0 <= i < a ==> is_white_space(#[trigger] s[i])) && (forall|i: int|
            b <= i < s.len() ==> is_white_space(#[trigger] s[i])) && (a < b ==> !is_white_space(s[a])
            && !is_white_space(s[b - 1]));
    if a1 < b1 {
        assert(!is_white_space(s[a1]));
        if a1 < a2 {
            assert(is_white_space(s[a1]));
        } else {
            assert(a1 >= b2);
            assert(is_white_space(s[a1]));
        }
    }
}

/// A shell metacharacter that the security policy refuses in paths handed to
/// an editor: `&`, `|`, `;`, `$` or a backquote.
pub open spec fn is_shell_metacharacter(c: char) -> bool {
    c == '&' || c == '|' || c == ';' || c == '$' || c == '`'
}

/// Why a file is not opened, or that it may be.
#[derive(Clone, Copy, Debug, PartialEq, Eq, Structural)]
pub enum OpenCheck {
    /// Launch the editor on the file.
    Launch,
    /// The path fails validation (see `is_refused_path`).
    InvalidCharacters,
    /// The file does not exist.
    Missing,
    /// The path is a directory.
    Directory,
    /// The editor does not exist.
    EditorMissing,
}

/// The path holds a shell metacharacter.
pub open spec fn has_shell_metacharacter(path: Seq<char>) -> bool {
    exists|i: int| 0 <= i < path.len() && is_shell_metacharacter(#[trigger] path[i])
}

/// The path starts with `~` followed by a name (`~name/...`), which names
/// another user's home folder, outside the user's own home.
pub open spec fn leaves_home_by_tilde(path: Seq<char>) -> bool {
    path.len() > 1 && path[0] == '~' && path[1] != '/'
}

/// The path fails validation: a shell metacharacter, a `..` component, or a
/// `~` that leads outside the home folder.
pub open spec fn is_refused_path(path: Seq<char>) -> bool {
    has_shell_metacharacter(path) || has_parent_piece(path) || leaves_home_by_tilde(path)
}

/// The path validation before an editor is launched on a path: no shell
/// metacharacter, no `..` traversal component and no `~name` outside the
/// home folder, else the error `Operation("Path contains invalid characters")`.
pub fn validate_open_path(path: &str) -> (r: Result<(), FileManagerError>)
    ensures
        is_refused_path(path@) ==> (r matches Err(FileManagerError::Operation(m)) && m@
            == "Path contains invalid characters"@),
        !is_refused_path(path@) ==> r is Ok,
{
    let v = chars_of(path);
    let mut bad = false;
    for i in 0..v.len()
        invariant
            v@ == path@,
            !bad ==> forall|j: int| 0 <= j < i ==> !is_shell_metacharacter(#[trigger] v@[j]),
            bad ==> has_shell_metacharacter(path@),
    {
        let c = v[i];
        if c == '&' || c == '|' || c == ';' || c == '$' || c == '`' {
            assert(is_shell_metacharacter(path@[i as int]));
            bad = true;
        }
    }
    let tilde = v.len() > 1 && v[0] == '~' && v[1] != '/';
    if bad || tilde || has_parent_component(path) {
        return Err(FileManagerError::Operation(String::from_str("Path contains invalid characters")));
    }
    Ok(())
}

/// Decide whether a file may be opened with an editor: paths that fail
/// `validate_open_path` are refused first, then missing files, directories
/// and missing editors.
pub fn check_open(path: &str, path_exists: bool, path_is_dir: bool, editor_exists: bool) -> (r: OpenCheck)
    ensures
        is_refused_path(path@) ==> r == OpenCheck::InvalidCharacters,
        !is_refused_path(path@) ==> r == (if !path_exists {
            OpenCheck::Missing
        } else if path_is_dir {
            OpenCheck::Directory
        } else if !editor_exists {
            OpenCheck::EditorMissing
        } else {
            OpenCheck::Launch
        }),
{
    if validate_open_path(path).is_err() {
        OpenCheck::InvalidCharacters
    } else if !path_exists {
        OpenCheck::Missing
    } else if path_is_dir {
        OpenCheck::Directory
    } else if !editor_exists {
        OpenCheck::EditorMissing
    } else {
        OpenCheck::Launch
    }
}

} // verus!

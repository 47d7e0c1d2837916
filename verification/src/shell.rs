//! Shell selection, PATH merging, and executable resolution.
//!
//! This build targets Unix hosts: shells are the Bourne family, paths are
//! slash-separated, and no registry-based PATH source exists.

use vstd::prelude::*;
use vstd::string::StringSliceAdditionalSpecFns;
use vstd::utf8::{
    char_is_scalar, char_u32_cast, encode_scalar, encode_utf8, has_width_1_encoding,
    has_width_2_encoding, has_width_3_encoding, leading_byte_width_1, leading_byte_width_2,
    leading_byte_width_3, leading_byte_width_4,
};

verus! {

broadcast use vstd::string::is_ascii_spec_bytes;

/// Whether a path is absolute: it starts with a slash.
pub open spec fn is_abs(p: Seq<char>) -> bool {
    p.len() > 0 && p[0] == '/'
}

proof fn lemma_first_byte(p: Seq<char>)
    requires
        p.len() > 0,
    ensures
        encode_utf8(p).len() > 0,
        encode_utf8(p)[0] == ('/' as u8) <==> p[0] == '/',
{
    char_is_scalar(p[0]);
    let s = p[0] as u32;
    assert(encode_utf8(p) == encode_scalar(s) + encode_utf8(p.drop_first()));
    if has_width_1_encoding(s) {
        assert(encode_scalar(s)[0] == leading_byte_width_1(s));
        assert(s <= 0x7F ==> (s & 0x7F) == s) by (bit_vector);
        assert(leading_byte_width_1(s) == s as u8);
        if s as u8 == '/' as u8 {
            let t: u32 = '/' as u32;
            assert(t == 0x2f);
            assert(s < 0x80 && t < 0x80 && s as u8 == t as u8 ==> s == t) by (bit_vector);
            char_u32_cast(p[0], s);
            char_u32_cast('/', '/' as u32);
            assert(p[0] == '/');
        }
        if p[0] == '/' {
            assert(encode_utf8(p)[0] == '/' as u8);
        }
    } else {
        // multibyte leading bytes have their top bit set, so they are not a slash,
        // and the character itself is not ascii
        if has_width_2_encoding(s) {
            let y = ((s >> 6) & 0x1F) as u8;
            assert((0xC0u8 | y) >= 0xC0) by (bit_vector);
            assert(encode_scalar(s)[0] == leading_byte_width_2(s));
        } else if has_width_3_encoding(s) {
            let y = ((s >> 12) & 0x0F) as u8;
            assert((0xE0u8 | y) >= 0xE0) by (bit_vector);
            assert(encode_scalar(s)[0] == leading_byte_width_3(s));
        } else {
            let y = ((s >> 18) & 0x7) as u8;
            assert((0xF0u8 | y) >= 0xF0) by (bit_vector);
            assert(encode_scalar(s)[0] == leading_byte_width_4(s));
        }
        if p[0] == '/' {
            char_u32_cast(p[0], s);
            char_u32_cast('/', '/' as u32);
            assert(false);
        }
    }
}

/// Whether the string names an absolute path.
pub fn is_absolute_path(s: &str) -> (r: bool)
    ensures
        r == is_abs(s@),
{
    let b = s.as_bytes();
    if b.len() == 0 {
        proof {
            if s@.len() > 0 {
                lemma_first_byte(s@);
            }
        }
        return false;
    }
    proof {
        if s@.len() == 0 {
            assert(encode_utf8(s@) =~= Seq::<u8>::empty());
        }
        lemma_first_byte(s@);
    }
    b[0] == 0x2f
}

/// What POSIX shell quoting (as shlex implements it) makes of a string:
/// `None` when the string cannot be quoted (it contains a NUL byte).
pub uninterp spec fn shell_quoted(s: Seq<char>) -> Option<Seq<char>>;

/// Relies on shlex::try_quote: POSIX shell quoting, a function of the input
/// alone, failing exactly on input that holds a NUL byte.
#[verifier::external_body]
fn try_quote(s: &str) -> (r: Option<String>)
    ensures
        r is Some <==> shell_quoted(s@) is Some,
        r matches Some(q) ==> shell_quoted(s@) == Some(q@),
{
    match shlex::try_quote(s) {
        Ok(q) => Some(q.into_owned()),
        Err(_) => None,
    }
}

/// Relies on which::which: looks an executable up on the process PATH. The
/// result depends on the machine, so nothing is promised of it.
#[verifier::external_body]
fn which_lookup(name: &str) -> (r: Option<String>)
{
    match which::which(name) {
        Ok(p) => Some(p.to_string_lossy().into_owned()),
        Err(_) => None,
    }
}

/// Relies on which::which_in: looks an executable up on an explicit list
/// of PATH entries, resolving relative entries against the process working
/// directory. The result depends on the machine, so nothing is promised of
/// it.
#[verifier::external_body]
fn which_in_lookup(name: &str, path: &str) -> (r: Option<String>)
{
    match which::which_in(name, Some(path), ".") {
        Ok(p) => Some(p.to_string_lossy().into_owned()),
        Err(_) => None,
    }
}

/// Relies on std::path::Path::is_file: whether the path names an existing
/// regular file. The result depends on the filesystem, so nothing is
/// promised of it.
#[verifier::external_body]
fn path_is_file(path: &str) -> (r: bool)
{
    std::path::Path::new(path).is_file()
}

/// Relies on dirs::home_dir: the user's home directory, if the platform
/// reports one. The result depends on the environment, so nothing is
/// promised of it.
#[verifier::external_body]
fn home_dir() -> (r: Option<String>)
{
    dirs::home_dir().map(|p| p.to_string_lossy().into_owned())
}

/// The file-name part of a path's UTF-8 bytes: everything after the last
/// slash.
pub open spec fn file_name_bytes(b: Seq<u8>) -> Seq<u8>
    decreases b.len(),
{
    if b.len() == 0 || b.last() == 0x2f {
        Seq::empty()
    } else {
        file_name_bytes(b.drop_last()).push(b.last())
    }
}

proof fn lemma_file_name_suffix(b: Seq<u8>, cut: int)
    requires
        0 <= cut <= b.len(),
        cut == 0 || b[cut - 1] == 0x2f,
        forall|j: int| cut <= j < b.len() ==> b[j] != 0x2f,
    ensures
        file_name_bytes(b) == b.skip(cut),
    decreases b.len(),
{
    if b.len() == 0 {
        assert(b.skip(0) =~= Seq::<u8>::empty());
    } else if b.last() == 0x2f {
        assert(cut == b.len());
        assert(b.skip(cut) =~= Seq::<u8>::empty());
    } else {
        assert(cut < b.len());
        assert forall|j: int| cut <= j < b.drop_last().len() implies b.drop_last()[j] != 0x2f by {
            assert(b.drop_last()[j] == b[j]);
        }
        if cut > 0 {
            assert(b.drop_last()[cut - 1] == b[cut - 1]);
        }
        lemma_file_name_suffix(b.drop_last(), cut);
        assert(file_name_bytes(b) =~= b.skip(cut));
    }
}

/// The file-name part of a path, as bytes.
fn file_name_part(s: &str) -> (r: Vec<u8>)
    ensures
        r@ == file_name_bytes(s.spec_bytes()),
{
    let b = s.as_bytes();
    let n = b.len();
    // find the position just after the last slash
    let mut start: usize = 0;
    let mut i: usize = 0;
    while i < n
        invariant
            0 <= start <= i <= n,
            n == b@.len(),
            start == 0 || b@[start - 1] == 0x2f,
            forall|j: int| start <= j < i ==> b@[j] != 0x2f,
        decreases n - i,
    {
        if b[i] == 0x2f {
            start = i + 1;
        }
        i = i + 1;
    }
    proof {
        lemma_file_name_suffix(b@, start as int);
    }
    let mut r: Vec<u8> = Vec::new();
    let mut k = start;
    while k < n
        invariant
            start <= k <= n,
            n == b@.len(),
            r@ == b@.subrange(start as int, k as int),
        decreases n - k,
    {
        r.push(b[k]);
        proof {
            assert(r@ =~= b@.subrange(start as int, k as int + 1));
        }
        k = k + 1;
    }
    proof {
        assert(b@.subrange(start as int, n as int) =~= b@.skip(start as int));
    }
    r
}

/// Unix shell flavors, each carrying the shell's path.
#[derive(Debug)]
pub enum UnixShell {
    Zsh(String),
    Bash(String),
    Sh(String),
    Other(String),
}

impl Clone for UnixShell {
    fn clone(&self) -> (r: Self)
        ensures
            r == *self,
    {
        match self {
            UnixShell::Zsh(p) => UnixShell::Zsh(p.clone()),
            UnixShell::Bash(p) => UnixShell::Bash(p.clone()),
            UnixShell::Sh(p) => UnixShell::Sh(p.clone()),
            UnixShell::Other(p) => UnixShell::Other(p.clone()),
        }
    }
}

/// The path a shell value carries.
pub open spec fn shell_path(sh: UnixShell) -> Seq<char> {
    match sh {
        UnixShell::Zsh(p) => p@,
        UnixShell::Bash(p) => p@,
        UnixShell::Sh(p) => p@,
        UnixShell::Other(p) => p@,
    }
}

impl PartialEq for UnixShell {
    fn eq(&self, other: &Self) -> (r: bool) {
        match self {
            UnixShell::Zsh(a) => match other {
                UnixShell::Zsh(b) => *a == *b,
                _ => false,
            },
            UnixShell::Bash(a) => match other {
                UnixShell::Bash(b) => *a == *b,
                _ => false,
            },
            UnixShell::Sh(a) => match other {
                UnixShell::Sh(b) => *a == *b,
                _ => false,
            },
            UnixShell::Other(a) => match other {
                UnixShell::Other(b) => *a == *b,
                _ => false,
            },
        }
    }
}

impl vstd::std_specs::cmp::PartialEqSpecImpl for UnixShell {
    open spec fn obeys_eq_spec() -> bool {
        true
    }

    open spec fn eq_spec(&self, other: &Self) -> bool {
        match self {
            UnixShell::Zsh(a) => other matches UnixShell::Zsh(b) && a@ == b@,
            UnixShell::Bash(a) => other matches UnixShell::Bash(b) && a@ == b@,
            UnixShell::Sh(a) => other matches UnixShell::Sh(b) && a@ == b@,
            UnixShell::Other(a) => other matches UnixShell::Other(b) && a@ == b@,
        }
    }
}

impl UnixShell {
    /// The shell's path.
    pub fn path(&self) -> (r: &str)
        ensures
            r@ == shell_path(*self),
    {
        match self {
            UnixShell::Zsh(p) => p.as_str(),
            UnixShell::Bash(p) => p.as_str(),
            UnixShell::Sh(p) => p.as_str(),
            UnixShell::Other(p) => p.as_str(),
        }
    }

    /// Whether this shell supports login mode.
    pub fn login(&self) -> (r: bool)
        ensures
            r == (self is Zsh || self is Bash),
    {
        match self {
            UnixShell::Zsh(_) => true,
            UnixShell::Bash(_) => true,
            _ => false,
        }
    }

    /// Classify a shell by its path: the path must be absolute and name an
    /// existing file; the flavor is decided by the file name.
    pub fn from_path(path: &str) -> (r: Option<UnixShell>)
        ensures
            !is_abs(path@) ==> r is None,
            r matches Some(sh) ==> {
                &&& is_abs(path@)
                &&& shell_path(sh) == path@
                &&& (sh is Zsh <==> file_name_bytes(path.spec_bytes()) == ("zsh").spec_bytes())
                &&& (sh is Bash <==> file_name_bytes(path.spec_bytes()) == ("bash").spec_bytes())
                &&& (sh is Sh <==> file_name_bytes(path.spec_bytes()) == ("sh").spec_bytes())
            },
    {
        if !is_absolute_path(path) {
            return None;
        }
        if !path_is_file(path) {
            return None;
        }
        let name = file_name_part(path);
        proof {
            reveal_strlit("zsh");
            reveal_strlit("bash");
            reveal_strlit("sh");
            assert(("zsh").is_ascii());
            assert(("bash").is_ascii());
            assert(("sh").is_ascii());
            assert(("zsh").spec_bytes().len() == 3);
            assert(("bash").spec_bytes().len() == 4);
            assert(("sh").spec_bytes().len() == 2);
        }
        if crate::jsontext::slice_eq(name.as_slice(), "zsh".as_bytes()) {
            return Some(UnixShell::Zsh(path.to_owned()));
        }
        if crate::jsontext::slice_eq(name.as_slice(), "bash".as_bytes()) {
            return Some(UnixShell::Bash(path.to_owned()));
        }
        if crate::jsontext::slice_eq(name.as_slice(), "sh".as_bytes()) {
            return Some(UnixShell::Sh(path.to_owned()));
        }
        Some(UnixShell::Other(path.to_owned()))
    }

    /// The shell named by the SHELL environment value, defaulting to
    /// `/bin/sh` when the value is absent or unusable.
    pub fn current_shell(shell_env: Option<&str>) -> (r: UnixShell)
        ensures
            shell_env is None ==> (r is Sh && shell_path(r) == ("/bin/sh"@)),
            shell_env matches Some(s) && !is_abs(s@) ==> (r is Sh && shell_path(r) == (
            "/bin/sh"@)),
    {
        match shell_env {
            Some(s) => match Self::from_path(s) {
                Some(sh) => sh,
                None => UnixShell::Sh(<String as vstd::string::StringExecFns>::from_str("/bin/sh")),
            },
            None => UnixShell::Sh(<String as vstd::string::StringExecFns>::from_str("/bin/sh")),
        }
    }

    /// The config file this shell sources, if it has one under the user's
    /// home directory.
    pub fn config_file(&self) -> (r: Option<String>)
        ensures
            (self is Sh || self is Other) ==> r is None,
            r matches Some(p) ==> ((self is Zsh && exists|h: Seq<char>| p@ == h + (".zshrc"@)) || (
            self is Bash && exists|h: Seq<char>| p@ == h + (".bashrc"@))),
    {
        let home = match home_dir() {
            Some(h) => h,
            None => {
                return None;
            },
        };
        match self {
            UnixShell::Zsh(_) => {
                let p = home.concat("/").concat(".zshrc");
                proof {
                    assert(p@ == (home@ + ("/"@)) + (".zshrc"@));
                }
                if path_is_file(p.as_str()) {
                    Some(p)
                } else {
                    None
                }
            },
            UnixShell::Bash(_) => {
                let p = home.concat("/").concat(".bashrc");
                proof {
                    assert(p@ == (home@ + ("/"@)) + (".bashrc"@));
                }
                if path_is_file(p.as_str()) {
                    Some(p)
                } else {
                    None
                }
            },
            _ => None,
        }
    }

    /// The command that sources this shell's config file, with the path
    /// shell-quoted.
    pub fn source_command(&self) -> (r: Option<String>)
        ensures
            r matches Some(cmd) ==> exists|cf: Seq<char>|
                (#[trigger] shell_quoted(cf)) matches Some(q) && cmd@ == ("source "@) + q,
            (self is Sh || self is Other) ==> r is None,
    {
        match self.config_file() {
            Some(cf) => match try_quote(cf.as_str()) {
                Some(q) => {
                    let cmd = <String as vstd::string::StringExecFns>::from_str(
                        "source ",
                    ).concat(q.as_str());
                    proof {
                        assert((#[trigger] shell_quoted(cf@)) matches Some(qq) && cmd@ == (
                        "source "@) + qq);
                    }
                    Some(cmd)
                },
                None => None,
            },
            None => None,
        }
    }

    /// The shell invocation pair: the shell's path and its command flag.
    pub fn get_shell_command(&self) -> (r: (String, &'static str))
        ensures
            r.0@ == shell_path(*self),
            r.1@ == ("-c"@),
    {
        match self {
            UnixShell::Zsh(p) => (p.clone(), "-c"),
            UnixShell::Bash(p) => (p.clone(), "-c"),
            UnixShell::Sh(p) => (p.clone(), "-c"),
            UnixShell::Other(p) => (p.clone(), "-c"),
        }
    }
}

/// The shell command and argument used to run a command line, given the
/// SHELL environment value.
pub fn get_shell_command(shell_env: Option<&str>) -> (r: (String, &'static str))
    ensures
        r.1@ == ("-c"@),
        shell_env is None ==> r.0@ == ("/bin/sh"@),
        shell_env matches Some(s) && !is_abs(s@) ==> r.0@ == ("/bin/sh"@),
{
    UnixShell::current_shell(shell_env).get_shell_command()
}

/// PATH entries merged from two lists: order kept, duplicates and empty
/// entries dropped.
pub open spec fn merged_paths(s: Seq<Seq<char>>) -> Seq<Seq<char>>
    decreases s.len(),
{
    if s.len() == 0 {
        s
    } else {
        let front = merged_paths(s.drop_last());
        if s.last().len() == 0 || front.contains(s.last()) {
            front
        } else {
            front.push(s.last())
        }
    }
}

fn contains_string(v: &Vec<String>, s: &String) -> (r: bool)
    ensures
        r == v.deep_view().contains(s@),
{
    let n = v.len();
    let mut i: usize = 0;
    while i < n
        invariant
            i <= n,
            n == v@.len(),
            forall|j: int| 0 <= j < i ==> v.deep_view()[j] != s@,
        decreases n - i,
    {
        if v[i] == *s {
            proof {
                assert(v.deep_view()[i as int] == s@);
            }
            return true;
        }
        i = i + 1;
    }
    false
}

/// Merge two lists of PATH entries into one, de-duplicated, keeping order
/// of first appearance and dropping empty entries.
pub fn merge_paths(primary: &Vec<String>, secondary: &Vec<String>) -> (r: Vec<String>)
    ensures
        r.deep_view() == merged_paths(primary.deep_view() + secondary.deep_view()),
{
    let ghost all = primary.deep_view() + secondary.deep_view();
    let mut r: Vec<String> = Vec::new();
    let np = primary.len();
    let mut i: usize = 0;
    while i < np
        invariant
            i <= np,
            np == primary@.len(),
            all == primary.deep_view() + secondary.deep_view(),
            r.deep_view() == merged_paths(all.take(i as int)),
        decreases np - i,
    {
        proof {
            assert(all.take(i as int + 1).drop_last() =~= all.take(i as int));
            assert(all.take(i as int + 1).last() == primary.deep_view()[i as int]);
            assert(primary.deep_view()[i as int] == primary@[i as int]@);
        }
        let entry = &primary[i];
        if !entry.as_str().is_empty() && !contains_string(&r, entry) {
            r.push(entry.clone());
            proof {
                assert(r.deep_view() =~= merged_paths(all.take(i as int + 1)));
            }
        } else {
            proof {
                if entry@.len() > 0 {
                    assert(r.deep_view().contains(entry@));
                }
                assert(r.deep_view() =~= merged_paths(all.take(i as int + 1)));
            }
        }
        i = i + 1;
    }
    let ns = secondary.len();
    let mut j: usize = 0;
    while j < ns
        invariant
            j <= ns,
            ns == secondary@.len(),
            np == primary@.len(),
            all == primary.deep_view() + secondary.deep_view(),
            r.deep_view() == merged_paths(all.take(np + j)),
        decreases ns - j,
    {
        proof {
            assert(all.take(np + j + 1).drop_last() =~= all.take(np + j));
            assert(all.take(np + j + 1).last() == secondary.deep_view()[j as int]);
            assert(secondary.deep_view()[j as int] == secondary@[j as int]@);
        }
        let entry = &secondary[j];
        if !entry.as_str().is_empty() && !contains_string(&r, entry) {
            r.push(entry.clone());
            proof {
                assert(r.deep_view() =~= merged_paths(all.take(np + j + 1)));
            }
        } else {
            proof {
                if entry@.len() > 0 {
                    assert(r.deep_view().contains(entry@));
                }
                assert(r.deep_view() =~= merged_paths(all.take(np + j + 1)));
            }
        }
        j = j + 1;
    }
    proof {
        assert(all.take(np + ns) =~= all);
    }
    r
}

/// A snapshot of everything executable resolution reads from the machine:
/// which absolute paths name regular files, and the PATH entries in order.
pub struct FsView {
    /// Absolute paths of existing regular files.
    pub files: Vec<String>,
    /// PATH entries, in search order.
    pub path_dirs: Vec<String>,
}

/// Well-formed snapshot: every file path and every PATH entry is absolute.
pub open spec fn fs_wf(files: Seq<Seq<char>>, dirs: Seq<Seq<char>>) -> bool {
    &&& forall|i: int| 0 <= i < files.len() ==> is_abs(#[trigger] files[i])
    &&& forall|i: int| 0 <= i < dirs.len() ==> is_abs(#[trigger] dirs[i])
}

/// The candidate path for an executable name under a PATH entry.
pub open spec fn cand_of(dir: Seq<char>, name: Seq<char>) -> Seq<char> {
    dir + ("/"@) + name
}

pub open spec fn resolve_search(name: Seq<char>, files: Seq<Seq<char>>, dirs: Seq<Seq<char>>) -> Option<
    Seq<char>,
>
    decreases dirs.len(),
{
    if dirs.len() == 0 {
        None
    } else if files.contains(cand_of(dirs[0], name)) {
        Some(cand_of(dirs[0], name))
    } else {
        resolve_search(name, files, dirs.drop_first())
    }
}

/// Executable resolution against a filesystem snapshot: an absolute name is
/// taken verbatim if it names a file; otherwise the PATH entries are
/// searched in order.
pub open spec fn resolve_spec(name: Seq<char>, files: Seq<Seq<char>>, dirs: Seq<Seq<char>>) -> Option<
    Seq<char>,
> {
    if name.len() == 0 {
        None
    } else if is_abs(name) {
        if files.contains(name) {
            Some(name)
        } else {
            None
        }
    } else {
        resolve_search(name, files, dirs)
    }
}

/// Resolve an executable name against a filesystem snapshot.
pub fn resolve_in_view(name: &str, fs: &FsView) -> (r: Option<String>)
    ensures
        ({
            let rs = resolve_spec(name@, fs.files.deep_view(), fs.path_dirs.deep_view());
            &&& (r is Some <==> rs is Some)
            &&& (r matches Some(p) ==> rs == Some(p@))
        }),
{
    if name.is_empty() {
        return None;
    }
    let owned = name.to_owned();
    if is_absolute_path(name) {
        if contains_string(&fs.files, &owned) {
            return Some(owned);
        }
        return None;
    }
    let nd = fs.path_dirs.len();
    proof {
        assert(fs.path_dirs.deep_view().skip(0) =~= fs.path_dirs.deep_view());
    }
    let mut i: usize = 0;
    while i < nd
        invariant
            i <= nd,
            nd == fs.path_dirs@.len(),
            owned@ == name@,
            name@.len() > 0,
            !is_abs(name@),
            resolve_search(name@, fs.files.deep_view(), fs.path_dirs.deep_view())
                == resolve_search(
                name@,
                fs.files.deep_view(),
                fs.path_dirs.deep_view().skip(i as int),
            ),
        decreases nd - i,
    {
        proof {
            assert(fs.path_dirs.deep_view().skip(i as int)[0] == fs.path_dirs.deep_view()[
                i as int
            ]);
            assert(fs.path_dirs.deep_view()[i as int] == fs.path_dirs@[i as int]@);
        }
        let cand = fs.path_dirs[i].clone().concat("/").concat(name);
        proof {
            assert(cand@ == cand_of(fs.path_dirs.deep_view()[i as int], name@));
        }
        if contains_string(&fs.files, &cand) {
            return Some(cand);
        }
        proof {
            assert(fs.path_dirs.deep_view().skip(i as int).drop_first()
                =~= fs.path_dirs.deep_view().skip(i as int + 1));
        }
        i = i + 1;
    }
    proof {
        assert(fs.path_dirs.deep_view().skip(nd as int) =~= Seq::<Seq<char>>::empty());
    }
    None
}

proof fn lemma_search_props(name: Seq<char>, files: Seq<Seq<char>>, dirs: Seq<Seq<char>>)
    requires
        resolve_search(name, files, dirs) is Some,
        forall|i: int| 0 <= i < dirs.len() ==> is_abs(#[trigger] dirs[i]),
    ensures
        files.contains(resolve_search(name, files, dirs).unwrap()),
        is_abs(resolve_search(name, files, dirs).unwrap()),
    decreases dirs.len(),
{
    if dirs.len() > 0 && files.contains(cand_of(dirs[0], name)) {
        assert(cand_of(dirs[0], name)[0] == dirs[0][0]);
    } else {
        assert forall|i: int| 0 <= i < dirs.drop_first().len() implies is_abs(
            #[trigger] dirs.drop_first()[i],
        ) by {
            assert(dirs.drop_first()[i] == dirs[i + 1]);
        }
        lemma_search_props(name, files, dirs.drop_first());
    }
}

/// Law: executable resolution is idempotent on a fixed filesystem snapshot:
/// resolving the path that resolution returned yields that same path.
pub proof fn lemma_resolution_idempotent(
    name: Seq<char>,
    files: Seq<Seq<char>>,
    dirs: Seq<Seq<char>>,
)
    requires
        fs_wf(files, dirs),
        resolve_spec(name, files, dirs) is Some,
    ensures
        resolve_spec(resolve_spec(name, files, dirs).unwrap(), files, dirs) == resolve_spec(
            name,
            files,
            dirs,
        ),
{
    let r = resolve_spec(name, files, dirs).unwrap();
    if name.len() > 0 && is_abs(name) {
        assert(r == name);
    } else {
        lemma_search_props(name, files, dirs);
    }
}

/// Resolve an executable name: an absolute path that names a file is taken
/// verbatim; otherwise the process PATH is consulted through `which`. The
/// outcome depends on the machine; a blank name never resolves.
pub fn resolve_executable_path(executable: &str) -> (r: Option<String>)
    ensures
        crate::jsontext::is_blank_bytes(executable.spec_bytes()) ==> r is None,
{
    if crate::jsontext::str_is_blank(executable) {
        return None;
    }
    if is_absolute_path(executable) {
        if path_is_file(executable) {
            return Some(executable.to_owned());
        }
    }
    which_lookup(executable)
}

/// Resolve an executable name with a fallback PATH: as
/// `resolve_executable_path`, and when the process PATH yields nothing the
/// given refreshed entries (a joined PATH string, as from sourcing login
/// shells) are searched as well.
pub fn resolve_executable_path_with(executable: &str, refreshed_path: &str) -> (r: Option<String>)
    ensures
        crate::jsontext::is_blank_bytes(executable.spec_bytes()) ==> r is None,
{
    match resolve_executable_path(executable) {
        Some(p) => Some(p),
        None => {
            if crate::jsontext::str_is_blank(executable) {
                return None;
            }
            which_in_lookup(executable, refreshed_path)
        },
    }
}

/// Blocking alias of `resolve_executable_path`.
pub fn resolve_executable_path_blocking(executable: &str) -> (r: Option<String>)
    ensures
        crate::jsontext::is_blank_bytes(executable.spec_bytes()) ==> r is None,
{
    resolve_executable_path(executable)
}

} // verus!

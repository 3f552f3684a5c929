//! Remote file metadata as shown in the file explorer: `ls -l` style
//! permission strings, entry and property records, file names, octal modes
//! and the checks applied before a remote file is read as text.

use vstd::prelude::*;
use vstd::utf8::{decode_utf8, valid_utf8};
use crate::error::{AppError, AppResult};
use crate::text::{
    chars_eq, chars_of, decimal, decimal_chars, octal, octal_chars, parse_unsigned, parse_unsigned_range,
    push_char, push_range, push_str, skip_trailing_char, str_eq, string_from_chars,
    string_from_range, strip_trailing_char, to_owned_string, u64_to_string,
};

verus! {

/// The file-type bits of a POSIX mode.
pub const SFTP_FILE_TYPE_MASK: u32 = 0o170000;

/// The permission bits of a POSIX mode (with setuid, setgid and sticky).
pub const POSIX_MODE_MASK: u32 = 0o7777;

/// `c` when `bit` is set in `mode`, `-` otherwise.
pub open spec fn perm_char(mode: u32, bit: u32, c: char) -> char {
    if mode & bit != 0 {
        c
    } else {
        '-'
    }
}

/// The execute column: `x`, or `set`/`unset` when the special bit is set
/// with/without execute.
pub open spec fn exec_char(mode: u32, x: u32, special: u32, set: char, unset: char) -> char {
    if mode & x != 0 && mode & special != 0 {
        set
    } else if mode & special != 0 {
        unset
    } else if mode & x != 0 {
        'x'
    } else {
        '-'
    }
}

/// The `ls -l` permission string of `mode` after the type character.
pub open spec fn permissions_text(mode: u32, type_char: char) -> Seq<char> {
    seq![
        type_char,
        perm_char(mode, 0o400, 'r'),
        perm_char(mode, 0o200, 'w'),
        exec_char(mode, 0o100, 0o4000, 's', 'S'),
        perm_char(mode, 0o040, 'r'),
        perm_char(mode, 0o020, 'w'),
        exec_char(mode, 0o010, 0o2000, 's', 'S'),
        perm_char(mode, 0o004, 'r'),
        perm_char(mode, 0o002, 'w'),
        exec_char(mode, 0o001, 0o1000, 't', 'T'),
    ]
}

/// Each column of a permission string shows its own bit and nothing else:
/// the type character first; then for owner, group and others in turn, `r`
/// exactly when the read bit is set (`-` otherwise), `w` exactly when the
/// write bit is set, and in the execute column a lower-case letter (`x`, or
/// `s`/`t`) exactly when the execute bit is set, and `s`/`S` (`t`/`T` for
/// others) exactly when the setuid, setgid or sticky bit is set.
pub proof fn law_permission_columns_follow_their_bits(mode: u32, type_char: char)
    ensures
        ({
            let p = permissions_text(mode, type_char);
            &&& p.len() == 10
            &&& p[0] == type_char
            &&& (p[1] == 'r' <==> mode & 0o400 != 0) && (p[1] == 'r' || p[1] == '-')
            &&& (p[2] == 'w' <==> mode & 0o200 != 0) && (p[2] == 'w' || p[2] == '-')
            &&& ((p[3] == 'x' || p[3] == 's') <==> mode & 0o100 != 0)
            &&& ((p[3] == 's' || p[3] == 'S') <==> mode & 0o4000 != 0)
            &&& (p[3] == 'x' || p[3] == 's' || p[3] == 'S' || p[3] == '-')
            &&& (p[4] == 'r' <==> mode & 0o040 != 0) && (p[4] == 'r' || p[4] == '-')
            &&& (p[5] == 'w' <==> mode & 0o020 != 0) && (p[5] == 'w' || p[5] == '-')
            &&& ((p[6] == 'x' || p[6] == 's') <==> mode & 0o010 != 0)
            &&& ((p[6] == 's' || p[6] == 'S') <==> mode & 0o2000 != 0)
            &&& (p[6] == 'x' || p[6] == 's' || p[6] == 'S' || p[6] == '-')
            &&& (p[7] == 'r' <==> mode & 0o004 != 0) && (p[7] == 'r' || p[7] == '-')
            &&& (p[8] == 'w' <==> mode & 0o002 != 0) && (p[8] == 'w' || p[8] == '-')
            &&& ((p[9] == 'x' || p[9] == 't') <==> mode & 0o001 != 0)
            &&& ((p[9] == 't' || p[9] == 'T') <==> mode & 0o1000 != 0)
            &&& (p[9] == 'x' || p[9] == 't' || p[9] == 'T' || p[9] == '-')
        }),
{
}

fn perm_c(mode: u32, bit: u32, c: char) -> (res: char)
    ensures
        res == perm_char(mode, bit, c),
{
    if mode & bit != 0 {
        c
    } else {
        '-'
    }
}

fn exec_c(mode: u32, x: u32, special: u32, set: char, unset: char) -> (res: char)
    ensures
        res == exec_char(mode, x, special, set, unset),
{
    if mode & x != 0 && mode & special != 0 {
        set
    } else if mode & special != 0 {
        unset
    } else if mode & x != 0 {
        'x'
    } else {
        '-'
    }
}

/// Convert a SFTP permission bitmask (u32) to the classic `ls -l` string like `-rwxr-xr-x`.
/// `type_char` should be `'d'` for directories, `'l'` for symlinks, or `'-'` for regular files.
pub fn permissions_to_string(mode: u32, type_char: char) -> (res: String)
    ensures
        res@ == permissions_text(mode, type_char),
{
    let mut s = String::new();
    push_char(&mut s, type_char);
    push_char(&mut s, perm_c(mode, 0o400, 'r'));
    push_char(&mut s, perm_c(mode, 0o200, 'w'));
    push_char(&mut s, exec_c(mode, 0o100, 0o4000, 's', 'S'));
    push_char(&mut s, perm_c(mode, 0o040, 'r'));
    push_char(&mut s, perm_c(mode, 0o020, 'w'));
    push_char(&mut s, exec_c(mode, 0o010, 0o2000, 's', 'S'));
    push_char(&mut s, perm_c(mode, 0o004, 'r'));
    push_char(&mut s, perm_c(mode, 0o002, 'w'));
    push_char(&mut s, exec_c(mode, 0o001, 0o1000, 't', 'T'));
    assert(s@ =~= permissions_text(mode, type_char));
    s
}

/// The type character of a mode: `d` for a directory, `l` for a symlink, `-` otherwise.
pub open spec fn type_char_of(mode: u32) -> char {
    if mode & SFTP_FILE_TYPE_MASK == 0o040000 {
        'd'
    } else if mode & SFTP_FILE_TYPE_MASK == 0o120000 {
        'l'
    } else {
        '-'
    }
}

pub fn type_char_from_mode(mode: u32) -> (res: char)
    ensures
        res == type_char_of(mode),
{
    let t = mode & SFTP_FILE_TYPE_MASK;
    if t == 0o040000 {
        'd'
    } else if t == 0o120000 {
        'l'
    } else {
        '-'
    }
}

/// The octal digits of `n`, zero-padded to at least four.
pub open spec fn octal_padded(n: nat) -> Seq<char> {
    let d = octal(n);
    if d.len() < 4 {
        Seq::new((4 - d.len()) as nat, |i: int| '0') + d
    } else {
        d
    }
}

/// How a mode is described in logs: `0o<octal> (<ls string>)`, or `none`.
pub open spec fn permissions_description(mode: Option<u32>) -> Seq<char> {
    match mode {
        Some(m) => "0o"@ + octal_padded(m as nat) + " ("@ + permissions_text(m, type_char_of(m))
            + ")"@,
        None => "none"@,
    }
}

/// Describes a mode for logs, e.g. `0o0755 (-rwxr-xr-x)`.
pub fn describe_permissions(mode: Option<u32>) -> (res: String)
    ensures
        res@ == permissions_description(mode),
{
    match mode {
        Some(m) => {
            let d = octal_chars(m as u64);
            let mut s = to_owned_string("0o");
            let ghost before = s@;
            let pad: usize = if d.len() < 4 {
                4 - d.len()
            } else {
                0
            };
            let mut k: usize = 0;
            assert(before + Seq::new(0, |i: int| '0') =~= before);
            while k < pad
                invariant
                    k <= pad,
                    pad == (if d.len() < 4 { 4 - d.len() } else { 0 }),
                    s@ == before + Seq::new(k as nat, |i: int| '0'),
                decreases pad - k,
            {
                push_char(&mut s, '0');
                k = k + 1;
                assert(s@ =~= before + Seq::new(k as nat, |i: int| '0'));
            }
            push_range(&mut s, &d, 0, d.len());
            assert(d@.subrange(0, d@.len() as int) =~= d@);
            push_str(&mut s, " (");
            push_str(&mut s, permissions_to_string(m, type_char_from_mode(m)).as_str());
            push_str(&mut s, ")");
            proof {
                if d@.len() >= 4 {
                    assert(Seq::new(k as nat, |i: int| '0') =~= Seq::<char>::empty());
                }
                assert(s@ =~= permissions_description(mode));
            }
            s
        },
        None => to_owned_string("none"),
    }
}

/// A path separator for file names: `/` or `\`.
pub open spec fn is_path_sep(c: char) -> bool {
    c == '/' || c == '\\'
}

/// The run of non-separator characters at the end of `s`.
pub open spec fn trailing_segment(s: Seq<char>) -> Seq<char>
    decreases s.len(),
{
    if s.len() == 0 || is_path_sep(s.last()) {
        Seq::empty()
    } else {
        trailing_segment(s.drop_last()).push(s.last())
    }
}

/// `s` without its trailing separators.
pub open spec fn strip_trailing_seps(s: Seq<char>) -> Seq<char>
    decreases s.len(),
{
    if s.len() > 0 && is_path_sep(s.last()) {
        strip_trailing_seps(s.drop_last())
    } else {
        s
    }
}

/// The last non-empty `/`- or `\`-separated segment of a path, or the whole
/// path when it has none.
pub open spec fn file_name_of(path: Seq<char>) -> Seq<char> {
    let t = strip_trailing_seps(path);
    if t.len() == 0 {
        path
    } else {
        trailing_segment(t)
    }
}

/// The last non-empty path segment (either separator), or the path itself.
pub fn file_name_from_path(path: &str) -> (res: String)
    ensures
        res@ == file_name_of(path@),
{
    let v = chars_of(path);
    let mut j = v.len();
    assert(v@.take(v@.len() as int) =~= v@);
    while j > 0 && (v[j - 1] == '/' || v[j - 1] == '\\')
        invariant
            j <= v.len(),
            strip_trailing_seps(v@) == strip_trailing_seps(v@.take(j as int)),
        decreases j,
    {
        assert(v@.take(j as int).drop_last() =~= v@.take(j - 1));
        j = j - 1;
    }
    assert(v@.take(v@.len() as int) =~= v@);
    if j == 0 {
        return to_owned_string(path);
    }
    let mut i = j;
    while i > 0 && !(v[i - 1] == '/' || v[i - 1] == '\\')
        invariant
            i <= j <= v.len(),
            trailing_segment(v@.take(j as int)) == trailing_segment(v@.take(i as int)) + v@.subrange(
                i as int,
                j as int,
            ),
        decreases i,
    {
        let ghost t = v@.take(i as int);
        assert(t.drop_last() =~= v@.take(i - 1));
        assert(v@.subrange(i - 1, j as int) =~= seq![t.last()] + v@.subrange(i as int, j as int));
        assert(trailing_segment(t) == trailing_segment(t.drop_last()).push(t.last()));
        assert(trailing_segment(t) + v@.subrange(i as int, j as int) =~= trailing_segment(
            v@.take(i - 1),
        ) + v@.subrange(i - 1, j as int));
        i = i - 1;
    }
    assert(trailing_segment(v@.take(i as int)) =~= Seq::<char>::empty());
    assert(v@.take(j as int) == strip_trailing_seps(v@.take(j as int)));
    string_from_range(&v, i, j)
}

/// The text after the last `/` of a path (all of it when there is none).
pub open spec fn after_last_slash(s: Seq<char>) -> Seq<char>
    decreases s.len(),
{
    if s.len() == 0 || s.last() == '/' {
        Seq::empty()
    } else {
        after_last_slash(s.drop_last()).push(s.last())
    }
}

/// The text after the last `/` of `path`.
pub fn name_after_last_slash(path: &str) -> (res: String)
    ensures
        res@ == after_last_slash(path@),
{
    let v = chars_of(path);
    let j = v.len();
    let mut i = j;
    assert(v@.subrange(j as int, j as int) =~= Seq::<char>::empty());
    assert(v@.take(j as int) =~= v@);
    assert(after_last_slash(v@) + Seq::<char>::empty() =~= after_last_slash(v@));
    while i > 0 && v[i - 1] != '/'
        invariant
            i <= j == v.len(),
            after_last_slash(v@) == after_last_slash(v@.take(i as int)) + v@.subrange(
                i as int,
                j as int,
            ),
        decreases i,
    {
        let ghost t = v@.take(i as int);
        assert(t.drop_last() =~= v@.take(i - 1));
        assert(v@.subrange(i - 1, j as int) =~= seq![t.last()] + v@.subrange(i as int, j as int));
        assert(after_last_slash(t) + v@.subrange(i as int, j as int) =~= after_last_slash(
            v@.take(i - 1),
        ) + v@.subrange(i - 1, j as int));
        i = i - 1;
    }
    assert(v@.take(j as int) =~= v@);
    assert(after_last_slash(v@.take(i as int)) =~= Seq::<char>::empty());
    string_from_range(&v, i, j)
}

/// The type of a remote directory entry.
#[derive(Debug, Clone, Copy, PartialEq, Eq, Structural)]
pub enum RemoteFileType {
    Dir,
    Symlink,
    File,
    Other,
}

/// Parsed entry from SFTP readdir for the file explorer.
#[derive(Debug)]
pub struct FileEntry {
    pub name: String,
    pub is_dir: bool,
    pub is_symlink: bool,
    pub size: u64,
    pub permissions: String,
}

/// The explorer entry for a directory listing item: `.` and `..` are
/// skipped; a missing size counts as 0 and missing permissions as mode 0.
pub fn file_entry_from_listing(
    name: String,
    file_type: RemoteFileType,
    size: Option<u64>,
    permissions: Option<u32>,
) -> (res: Option<FileEntry>)
    ensures
        (name@ == "."@ || name@ == ".."@) ==> res is None,
        !(name@ == "."@ || name@ == ".."@) ==> (res matches Some(e) && e.name@ == name@ && e.is_dir
            == (file_type == RemoteFileType::Dir) && e.is_symlink == (file_type
            == RemoteFileType::Symlink) && e.size == (match size {
            Some(s) => s,
            None => 0,
        }) && e.permissions@ == permissions_text(
            match permissions {
                Some(p) => p,
                None => 0,
            },
            if file_type == RemoteFileType::Dir {
                'd'
            } else if file_type == RemoteFileType::Symlink {
                'l'
            } else {
                '-'
            },
        )),
{
    if str_eq(name.as_str(), ".") || str_eq(name.as_str(), "..") {
        return None;
    }
    let is_dir = file_type == RemoteFileType::Dir;
    let is_symlink = file_type == RemoteFileType::Symlink;
    let type_char = if is_dir {
        'd'
    } else if is_symlink {
        'l'
    } else {
        '-'
    };
    let size = match size {
        Some(s) => s,
        None => 0,
    };
    let perms = match permissions {
        Some(p) => p,
        None => 0,
    };
    let permissions = permissions_to_string(perms, type_char);
    Some(FileEntry { name, is_dir, is_symlink, size, permissions })
}

/// The attributes of a remote file as SFTP reports them.
pub struct RemoteAttrs {
    pub size: Option<u64>,
    pub permissions: Option<u32>,
    pub user: Option<String>,
    pub group: Option<String>,
    pub uid: Option<u32>,
    pub gid: Option<u32>,
    pub mtime: Option<u32>,
    pub atime: Option<u32>,
}

/// Properties of a remote entry for the properties dialog.
#[derive(Debug)]
pub struct FileProperties {
    pub name: String,
    pub is_dir: bool,
    pub is_symlink: bool,
    pub size: u64,
    pub permissions: String,
    pub owner: String,
    pub group: String,
    pub uid: String,
    pub gid: String,
    pub mtime: u64,
    pub atime: u64,
}

/// The decimal text of an optional id, empty when absent.
pub open spec fn id_text(id: Option<u32>) -> Seq<char> {
    match id {
        Some(v) => decimal(v as nat),
        None => Seq::empty(),
    }
}

/// A string's text, or empty when absent.
pub open spec fn opt_text(s: Option<String>) -> Seq<char> {
    match s {
        Some(v) => v@,
        None => Seq::empty(),
    }
}

/// Builds the properties of the entry at `path` from its attributes; the
/// type comes from the mode's type bits, the name is the text after the last
/// `/`, missing values are 0 or empty.
pub fn file_properties_from_attrs(path: &str, attrs: RemoteAttrs) -> (res: FileProperties)
    ensures
        ({
            let perms = match attrs.permissions {
                Some(p) => p,
                None => 0,
            };
            &&& res.name@ == after_last_slash(path@)
            &&& res.is_dir == (perms & 0o170000 == 0o040000)
            &&& res.is_symlink == (perms & 0o170000 == 0o120000)
            &&& res.permissions@ == permissions_text(perms, type_char_of(perms))
            &&& res.size == (match attrs.size {
                Some(s) => s,
                None => 0,
            })
            &&& res.owner@ == opt_text(attrs.user)
            &&& res.group@ == opt_text(attrs.group)
            &&& res.uid@ == id_text(attrs.uid)
            &&& res.gid@ == id_text(attrs.gid)
            &&& res.mtime == (match attrs.mtime {
                Some(t) => t as u64,
                None => 0,
            })
            &&& res.atime == (match attrs.atime {
                Some(t) => t as u64,
                None => 0,
            })
        }),
{
    let perms = match attrs.permissions {
        Some(p) => p,
        None => 0,
    };
    let type_bits = perms & 0o170000;
    let is_dir = type_bits == 0o040000;
    let is_symlink = type_bits == 0o120000;
    let type_char = if is_dir {
        'd'
    } else if is_symlink {
        'l'
    } else {
        '-'
    };
    let permissions = permissions_to_string(perms, type_char);
    let name = name_after_last_slash(path);
    let uid = match attrs.uid {
        Some(v) => u64_to_string(v as u64),
        None => String::new(),
    };
    let gid = match attrs.gid {
        Some(v) => u64_to_string(v as u64),
        None => String::new(),
    };
    let owner = match attrs.user {
        Some(u) => u,
        None => String::new(),
    };
    let group = match attrs.group {
        Some(g) => g,
        None => String::new(),
    };
    FileProperties {
        name,
        is_dir,
        is_symlink,
        size: match attrs.size {
            Some(s) => s,
            None => 0,
        },
        permissions,
        owner,
        group,
        uid,
        gid,
        mtime: match attrs.mtime {
            Some(t) => t as u64,
            None => 0,
        },
        atime: match attrs.atime {
            Some(t) => t as u64,
            None => 0,
        },
    }
}

/// A mode is a directory when its type bits say so (`S_IFDIR`).
pub open spec fn mode_is_dir(mode: Option<u32>) -> bool {
    match mode {
        Some(p) => p & 0o170000 == 0o040000,
        None => false,
    }
}

/// Whether a removal should recurse: the entry's mode marks a directory.
pub fn is_directory_mode(mode: Option<u32>) -> (res: bool)
    ensures
        res == mode_is_dir(mode),
{
    match mode {
        Some(p) => (p & 0o170000) == 0o040000,
        None => false,
    }
}

/// Parses a mode written in octal (`u32::from_str_radix(mode, 8)`); any
/// other text is `Invalid octal mode: <mode>`.
pub fn parse_octal_mode(mode: &str) -> (res: AppResult<u32>)
    ensures
        match parse_unsigned(mode@, 8, u32::MAX as nat) {
            Some(n) => res matches Ok(m) && m == n,
            None => res matches Err(AppError::Channel(msg)) && msg@ == "Invalid octal mode: "@
                + mode@,
        },
{
    let v = chars_of(mode);
    assert(v@.subrange(0, v@.len() as int) =~= v@);
    match parse_unsigned_range(&v, 0, v.len(), 8, 0xffff_ffff) {
        Some(n) => Ok(n as u32),
        None => {
            let mut m = to_owned_string("Invalid octal mode: ");
            push_str(&mut m, mode);
            Err(AppError::Channel(m))
        },
    }
}

/// The permission bits that a chmod asks the server to set.
pub fn requested_permissions(mode: u32) -> (res: u32)
    ensures
        res == mode & POSIX_MODE_MASK,
{
    mode & POSIX_MODE_MASK
}

/// A remote text file read for analysis.
#[derive(Debug)]
pub struct RemoteTextFile {
    pub path: String,
    pub content: String,
    pub size: u64,
}

/// The "too large" message for a file of `size` bytes over `max` bytes.
pub open spec fn too_large_text(size: nat, max: nat) -> Seq<char> {
    "File is too large for AI analysis ("@ + decimal(size) + " bytes > "@ + decimal(max)
        + " bytes)"@
}

fn too_large_message(size: u64, max: u64) -> (res: String)
    ensures
        res@ == too_large_text(size as nat, max as nat),
{
    let mut m = to_owned_string("File is too large for AI analysis (");
    push_str(&mut m, u64_to_string(size).as_str());
    push_str(&mut m, " bytes > ");
    push_str(&mut m, u64_to_string(max).as_str());
    push_str(&mut m, " bytes)");
    m
}

/// Checks the attributes of a file before reading it as text: a directory,
/// or a file larger than `max_bytes`, is refused.
pub fn check_text_file_attrs(permissions: Option<u32>, size: Option<u64>, max_bytes: u64) -> (res: AppResult<()>)
    ensures
        ({
            let perms = match permissions {
                Some(p) => p,
                None => 0,
            };
            let sz = match size {
                Some(s) => s,
                None => 0,
            };
            if perms & SFTP_FILE_TYPE_MASK == 0o040000 {
                res matches Err(AppError::Config(m)) && m@
                    == "Directories are not supported for AI file analysis"@
            } else if sz > max_bytes {
                res matches Err(AppError::Config(m)) && m@ == too_large_text(sz as nat, max_bytes as nat)
            } else {
                res is Ok
            }
        }),
{
    let perms = match permissions {
        Some(p) => p,
        None => 0,
    };
    let sz = match size {
        Some(s) => s,
        None => 0,
    };
    if perms & SFTP_FILE_TYPE_MASK == 0o040000 {
        return Err(
            AppError::Config(to_owned_string("Directories are not supported for AI file analysis")),
        );
    }
    if sz > max_bytes {
        return Err(AppError::Config(too_large_message(sz, max_bytes)));
    }
    Ok(())
}

/// The text that `String::from_utf8` reports for bytes that are not UTF-8.
pub uninterp spec fn utf8_error_text(bytes: Seq<u8>) -> Seq<char>;

/// Decodes UTF-8 bytes into a `String` (`String::from_utf8`): the decoded
/// text when the bytes are valid UTF-8, the error's text otherwise.
#[verifier::external_body]
pub(crate) fn utf8_decode(bytes: Vec<u8>) -> (res: Result<String, String>)
    ensures
        res is Ok <==> valid_utf8(bytes@),
        match res {
            Ok(s) => s@ == decode_utf8(bytes@),
            Err(m) => m@ == utf8_error_text(bytes@),
        },
{
    String::from_utf8(bytes).map_err(|e| e.to_string())
}

/// Turns the bytes read from a remote file into a text file: more than
/// `max_bytes` bytes, a NUL byte, or invalid UTF-8 is refused, in that order.
pub fn text_file_from_bytes(path: &str, bytes: Vec<u8>, size: u64, max_bytes: u64) -> (res: AppResult<RemoteTextFile>)
    ensures
        if bytes@.len() > max_bytes {
            res matches Err(AppError::Config(m)) && m@ == too_large_text(bytes@.len(), max_bytes as nat)
        } else if bytes@.contains(0u8) {
            res matches Err(AppError::Config(m)) && m@ == "Binary files are not supported for AI analysis"@
        } else if !valid_utf8(bytes@) {
            res matches Err(AppError::Config(m)) && m@
                == "Only UTF-8 text files are supported for AI analysis"@
        } else {
            res matches Ok(f) && f.path@ == path@ && f.content@ == decode_utf8(bytes@) && f.size
                == size
        },
{
    let n: u64 = bytes.len() as u64;
    assert(n == bytes@.len());
    if n > max_bytes {
        return Err(AppError::Config(too_large_message(n, max_bytes)));
    }
    let mut i: usize = 0;
    while i < bytes.len()
        invariant
            i <= bytes.len(),
            bytes@.len() <= max_bytes,
            forall|j: int| 0 <= j < i ==> bytes@[j] != 0u8,
        decreases bytes.len() - i,
    {
        if bytes[i] == 0 {
            assert(bytes@[i as int] == 0u8);
            assert(bytes@.contains(0u8));
            return Err(
                AppError::Config(to_owned_string("Binary files are not supported for AI analysis")),
            );
        }
        i = i + 1;
    }
    match utf8_decode(bytes) {
        Ok(content) => Ok(RemoteTextFile { path: to_owned_string(path), content, size }),
        Err(_) => Err(
            AppError::Config(
                to_owned_string("Only UTF-8 text files are supported for AI analysis"),
            ),
        ),
    }
}


/// The home directory the server reports; an empty answer is an error.
pub fn home_dir_result(home: String) -> (res: AppResult<String>)
    ensures
        home@.len() == 0 ==> (res matches Err(AppError::Config(m)) && m@
            == "Failed to determine home directory"@),
        home@.len() > 0 ==> (res matches Ok(h) && h@ == home@),
{
    if home.as_str().is_empty() {
        Err(AppError::Config(to_owned_string("Failed to determine home directory")))
    } else {
        Ok(home)
    }
}

/// The remote path of the entry `name` in the directory `parent`: the parent
/// without trailing slashes, a slash, and the name.
pub fn remote_child_path(parent: &str, name: &str) -> (res: String)
    ensures
        res@ == strip_trailing_char(parent@, '/') + seq!['/'] + name@,
{
    let v = chars_of(parent);
    let end = skip_trailing_char(&v, 0, v.len(), '/');
    let mut s = string_from_range(&v, 0, end);
    push_char(&mut s, '/');
    push_str(&mut s, name);
    proof {
        assert(v@.subrange(0, v@.len() as int) =~= v@);
    }
    s
}

/// `s` with every trailing `/` and `\` removed.
pub open spec fn strip_trailing_separators(s: Seq<char>) -> Seq<char>
    decreases s.len(),
{
    if s.len() > 0 && (s.last() == '/' || s.last() == '\\') {
        strip_trailing_separators(s.drop_last())
    } else {
        s
    }
}

/// The local path of the entry `name` in the directory `parent`: the parent
/// without trailing slashes or backslashes, a slash, and the name.
pub fn local_child_path(parent: &str, name: &str) -> (res: String)
    ensures
        res@ == strip_trailing_separators(parent@) + seq!['/'] + name@,
{
    let v = chars_of(parent);
    let mut end = v.len();
    proof {
        assert(v@.take(v@.len() as int) =~= v@);
    }
    while end > 0 && (v[end - 1] == '/' || v[end - 1] == '\\')
        invariant
            end <= v.len(),
            strip_trailing_separators(v@) == strip_trailing_separators(v@.take(end as int)),
        decreases end,
    {
        proof {
            assert(v@.take(end as int).drop_last() =~= v@.take(end - 1));
        }
        end = end - 1;
    }
    let mut s = string_from_range(&v, 0, end);
    push_char(&mut s, '/');
    push_str(&mut s, name);
    proof {
        assert(v@.subrange(0, end as int) =~= v@.take(end as int));
    }
    s
}

/// What a recursive delete of a directory does with one of its entries.
#[derive(Debug)]
pub enum DeleteStep {
    /// `.` and `..` are left alone.
    Ignore,
    /// A subdirectory at this path is deleted recursively.
    Recurse(String),
    /// Anything else at this path, a symbolic link included, is removed as a
    /// file, so a linked directory is never entered.
    RemoveFile(String),
}

/// The step a recursive delete of `dir` takes for the entry `name`; the
/// entry's path is `dir` without trailing slashes, a slash, and the name.
pub fn delete_entry_step(dir: &str, name: &str, is_dir: bool) -> (res: DeleteStep)
    ensures
        (name@ == seq!['.'] || name@ == seq!['.', '.']) ==> res is Ignore,
        !(name@ == seq!['.'] || name@ == seq!['.', '.']) && is_dir ==> (res matches DeleteStep::Recurse(
            c,
        ) && c@ == strip_trailing_char(dir@, '/') + seq!['/'] + name@),
        !(name@ == seq!['.'] || name@ == seq!['.', '.']) && !is_dir ==> (res matches DeleteStep::RemoveFile(
            c,
        ) && c@ == strip_trailing_char(dir@, '/') + seq!['/'] + name@),
{
    let n = chars_of(name);
    let dot = vec!['.'];
    let dotdot = vec!['.', '.'];
    assert(dot@ =~= seq!['.']);
    assert(dotdot@ =~= seq!['.', '.']);
    if chars_eq(&n, &dot) || chars_eq(&n, &dotdot) {
        return DeleteStep::Ignore;
    }
    let child = remote_child_path(dir, name);
    if is_dir {
        DeleteStep::Recurse(child)
    } else {
        DeleteStep::RemoveFile(child)
    }
}

/// The line a file that could not be removed contributes to the error of a
/// recursive delete: `'<path>': <error>`.
pub fn file_delete_failure(path: &str, error: &str) -> (res: String)
    ensures
        res@ == file_delete_failure_text(path@, error@),
{
    let mut s = String::new();
    push_char(&mut s, '\'');
    push_str(&mut s, path);
    push_char(&mut s, '\'');
    push_char(&mut s, ':');
    push_char(&mut s, ' ');
    push_str(&mut s, error);
    assert(s@ =~= seq!['\''] + path@ + seq!['\'', ':', ' '] + error@);
    s
}

/// The error of a recursive delete whose entries are gone but whose
/// directory `path` (without trailing slashes) could not be removed.
pub fn dir_remove_error(path: &str, error: &str) -> (res: AppError)
    ensures
        res matches AppError::Channel(m) && m@ == "Failed to remove directory "@ + file_delete_failure_text(
            path@,
            error@,
        ),
{
    proof {
        reveal_strlit("Failed to remove directory ");
    }
    let mut m = to_owned_string("Failed to remove directory ");
    let line = file_delete_failure(path, error);
    push_str(&mut m, line.as_str());
    AppError::Channel(m)
}

/// `'<path>': <error>`.
pub open spec fn file_delete_failure_text(path: Seq<char>, error: Seq<char>) -> Seq<char> {
    seq!['\''] + path + seq!['\'', ':', ' '] + error
}

/// The lines of `errors` joined by newlines.
pub open spec fn joined_lines(errors: Seq<Seq<char>>) -> Seq<char>
    decreases errors.len(),
{
    if errors.len() == 0 {
        Seq::empty()
    } else if errors.len() == 1 {
        errors[0]
    } else {
        joined_lines(errors.drop_last()) + seq!['\n'] + errors.last()
    }
}

/// The error of a recursive delete that left entries behind: their count
/// and each failure on a line of its own.
pub fn delete_failures_error(errors: &Vec<String>) -> (res: AppError)
    requires
        errors@.len() > 0,
    ensures
        res matches AppError::Channel(m) && m@ == decimal(errors@.len()) + " item(s) could not be deleted:\n"@
            + joined_lines(crate::osc::string_views(errors@)),
{
    let mut m = u64_to_string(errors.len() as u64);
    push_str(&mut m, " item(s) could not be deleted:\n");
    let ghost head = m@;
    push_str(&mut m, errors[0].as_str());
    let mut i: usize = 1;
    proof {
        assert(crate::osc::string_views(errors@).take(1) =~= seq![errors@[0]@]);
    }
    while i < errors.len()
        invariant
            1 <= i <= errors.len(),
            m@ == head + joined_lines(crate::osc::string_views(errors@).take(i as int)),
        decreases errors.len() - i,
    {
        push_char(&mut m, '\n');
        push_str(&mut m, errors[i].as_str());
        proof {
            let t = crate::osc::string_views(errors@).take(i + 1);
            assert(t.drop_last() =~= crate::osc::string_views(errors@).take(i as int));
            assert(t.last() == errors@[i as int]@);
            assert(m@ =~= head + joined_lines(t));
        }
        i = i + 1;
    }
    proof {
        assert(crate::osc::string_views(errors@).take(errors@.len() as int) =~= crate::osc::string_views(
            errors@,
        ));
    }
    AppError::Channel(m)
}


/// The line a recursive delete reports for an entry it could not remove.
pub fn delete_failure_line(path: &str, error: &str) -> (res: String)
    ensures
        res@ == seq!['\''] + path@ + "': "@ + error@,
{
    let mut s = String::new();
    push_char(&mut s, '\'');
    push_str(&mut s, path);
    push_str(&mut s, "': ");
    push_str(&mut s, error);
    s
}

/// The outcome of creating an entry with requested permissions whose
/// permissions could not be applied: the creation stands when the entry
/// exists, the error otherwise.
pub fn mode_after_create_outcome(error: AppError, exists: bool) -> (res: AppResult<()>)
    ensures
        exists ==> res is Ok,
        !exists ==> res == Err::<(), AppError>(error),
{
    if exists {
        Ok(())
    } else {
        Err(error)
    }
}

} // verus!

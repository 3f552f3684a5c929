//! Remote directory listing through `ls -la` over an SSH exec channel: the
//! command line and the parsing of its output.
//!
//! Running the command on a temporary connection is left to the caller.

use vstd::prelude::*;
use crate::error::{AppError, AppResult};
use crate::text::{
    chars_of, has_prefix, has_prefix_in, is_whitespace, is_ws, leading_ws, lemma_leading_ws,
    parse_unsigned, parse_unsigned_range, push_char, push_str, skip_ws_forward,
    string_from_range, to_owned_string, trim_range, trim_seq, trim_string,
};

verus! {

/// Parsed entry from `ls -la` output for the file explorer.
#[derive(Debug)]
pub struct FileEntry {
    pub name: String,
    pub is_dir: bool,
    pub size: u64,
    pub permissions: String,
}

// ---------------------------------------------------------------------------
// Quoting for the remote shell
// ---------------------------------------------------------------------------

/// `s` with each `'` replaced by `'\''`.
pub open spec fn escape_quotes(s: Seq<char>) -> Seq<char>
    decreases s.len(),
{
    if s.len() == 0 {
        s
    } else {
        escape_quotes(s.drop_last()) + if s.last() == '\'' {
            seq!['\'', '\\', '\'', '\'']
        } else {
            seq![s.last()]
        }
    }
}

/// `s` in single quotes for a POSIX shell.
pub open spec fn shell_quoted(s: Seq<char>) -> Seq<char> {
    seq!['\''] + escape_quotes(s) + seq!['\'']
}

/// Single-quotes `s` for the remote shell.
pub fn shell_escape(s: &str) -> (res: String)
    ensures
        res@ == shell_quoted(s@),
{
    let v = chars_of(s);
    let mut out = String::new();
    push_char(&mut out, '\'');
    let mut i: usize = 0;
    while i < v.len()
        invariant
            i <= v.len(),
            v@ == s@,
            out@ == seq!['\''] + escape_quotes(v@.take(i as int)),
        decreases v.len() - i,
    {
        let ghost before = out@;
        if v[i] == '\'' {
            push_char(&mut out, '\'');
            push_char(&mut out, '\\');
            push_char(&mut out, '\'');
            push_char(&mut out, '\'');
        } else {
            push_char(&mut out, v[i]);
        }
        proof {
            assert(v@.take(i + 1).drop_last() =~= v@.take(i as int));
            assert(out@ =~= seq!['\''] + escape_quotes(v@.take(i + 1)));
        }
        i = i + 1;
    }
    push_char(&mut out, '\'');
    proof {
        assert(v@.take(v@.len() as int) =~= v@);
        assert(out@ =~= shell_quoted(s@));
    }
    out
}

/// A path as the remote shell should read it: `~` and `~/...` stay unquoted
/// so that the shell expands them, the rest is single-quoted.
pub open spec fn path_for_shell(path: Seq<char>) -> Seq<char> {
    if path == seq!['~'] {
        path
    } else if has_prefix(path, seq!['~', '/']) {
        seq!['~', '/'] + shell_quoted(path.skip(2))
    } else {
        shell_quoted(path)
    }
}

/// Builds a shell-safe path string.
pub fn build_path_for_shell(path: &str) -> (res: String)
    ensures
        res@ == path_for_shell(path@),
{
    let v = chars_of(path);
    if v.len() == 1 && v[0] == '~' {
        proof {
            assert(v@ =~= seq!['~']);
        }
        return to_owned_string(path);
    }
    if v.len() >= 2 && v[0] == '~' && v[1] == '/' {
        proof {
            assert(v@ != seq!['~']);
            assert(v@.take(2) =~= seq!['~', '/']);
        }
        let rest = string_from_range(&v, 2, v.len());
        let quoted = shell_escape(rest.as_str());
        let mut out = String::new();
        push_char(&mut out, '~');
        push_char(&mut out, '/');
        push_str(&mut out, quoted.as_str());
        proof {
            assert(v@.subrange(2, v@.len() as int) =~= v@.skip(2));
            assert(out@ =~= seq!['~', '/'] + shell_quoted(path@.skip(2)));
        }
        return out;
    }
    proof {
        if v@ == seq!['~'] {
            assert(v@.len() == 1);
        }
        if has_prefix(v@, seq!['~', '/']) {
            assert(v@.take(2)[0] == '~');
            assert(v@.take(2)[1] == '/');
        }
    }
    shell_escape(path)
}

/// The command that lists `path`: with colours turned off where `ls` knows
/// the option, and without otherwise.
pub open spec fn list_command(path: Seq<char>) -> Seq<char> {
    "ls -la --color=never "@ + path_for_shell(path) + " 2>/dev/null || ls -la "@ + path_for_shell(
        path,
    ) + " 2>/dev/null"@
}

/// Builds the command that lists `path`.
pub fn build_list_command(path: &str) -> (res: String)
    ensures
        res@ == list_command(path@),
{
    let escaped = build_path_for_shell(path);
    let mut cmd = to_owned_string("ls -la --color=never ");
    push_str(&mut cmd, escaped.as_str());
    push_str(&mut cmd, " 2>/dev/null || ls -la ");
    push_str(&mut cmd, escaped.as_str());
    push_str(&mut cmd, " 2>/dev/null");
    proof {
        assert(cmd@ =~= list_command(path@));
    }
    cmd
}

/// The home directory from the output of `echo $HOME`: the output trimmed,
/// which must not be empty.
pub fn home_dir_from_output(output: &str) -> (res: AppResult<String>)
    ensures
        trim_seq(output@).len() == 0 ==> (res matches Err(AppError::Config(m)) && m@
            == "Failed to determine home directory"@),
        trim_seq(output@).len() > 0 ==> (res matches Ok(h) && h@ == trim_seq(output@)),
{
    let home = trim_string(output);
    if home.as_str().is_empty() {
        Err(AppError::Config(to_owned_string("Failed to determine home directory")))
    } else {
        Ok(home)
    }
}


// ---------------------------------------------------------------------------
// Parsing the listing
// ---------------------------------------------------------------------------

/// The number of characters of `s` before its first newline.
pub open spec fn line_end(s: Seq<char>) -> nat
    decreases s.len(),
{
    if s.len() == 0 || s[0] == '\n' {
        0
    } else {
        1 + line_end(s.drop_first())
    }
}

/// A line without the carriage return that ended it.
pub open spec fn strip_cr(l: Seq<char>) -> Seq<char> {
    if l.len() > 0 && l.last() == '\r' {
        l.drop_last()
    } else {
        l
    }
}

/// The lines of `s` (`str::lines`): split after each newline, a carriage
/// return before the newline dropped, no empty line after a final newline.
pub open spec fn lines_of(s: Seq<char>) -> Seq<Seq<char>>
    decreases s.len(),
{
    if s.len() == 0 {
        Seq::empty()
    } else {
        let e = line_end(s);
        if e >= s.len() {
            seq![s]
        } else {
            seq![strip_cr(s.take(e as int))] + lines_of(s.skip(e + 1 as int))
        }
    }
}

/// The number of leading characters of `s` that are not white space.
pub open spec fn word_len(s: Seq<char>) -> nat
    decreases s.len(),
{
    if s.len() > 0 && !is_ws(s[0]) {
        1 + word_len(s.drop_first())
    } else {
        0
    }
}

/// The words of `s` (`str::split_whitespace`).
pub open spec fn words_of(s: Seq<char>) -> Seq<Seq<char>>
    decreases s.len(),
{
    let w = leading_ws(s);
    if w >= s.len() {
        Seq::empty()
    } else {
        let t = s.skip(w as int);
        let k = word_len(t);
        if k == 0 || k > t.len() {
            Seq::empty()
        } else {
            seq![t.take(k as int)] + words_of(t.skip(k as int))
        }
    }
}

/// Words joined with single spaces (`join(" ")`).
pub open spec fn join_words(ws: Seq<Seq<char>>) -> Seq<char>
    decreases ws.len(),
{
    if ws.len() == 0 {
        Seq::empty()
    } else if ws.len() == 1 {
        ws[0]
    } else {
        join_words(ws.drop_last()) + seq![' '] + ws.last()
    }
}

/// A character `ls -F` appends to a name.
pub open spec fn is_name_mark(c: char) -> bool {
    c == '@' || c == '/' || c == '*'
}

/// `s` without its trailing `@`, `/` and `*`.
pub open spec fn strip_marks(s: Seq<char>) -> Seq<char>
    decreases s.len(),
{
    if s.len() > 0 && is_name_mark(s.last()) {
        strip_marks(s.drop_last())
    } else {
        s
    }
}

/// An entry as plain values: name, directory flag, size, permission text.
pub type EntryModel = (Seq<char>, bool, nat, Seq<char>);

/// The entry a line of `ls -la` output describes: none for the `total`
/// line, a blank line, a line of fewer than nine fields, and `.` and `..`.
/// The permissions are the first field (a directory's start with `d`), the
/// size the fifth (zero when it is no number), and the name the fields from
/// the ninth on, joined by spaces, without trailing `@`, `/` and `*`.
pub open spec fn entry_of_line(line: Seq<char>) -> Option<EntryModel> {
    let parts = words_of(line);
    if has_prefix(line, "total "@) || trim_seq(line).len() == 0 || parts.len() < 9 {
        None
    } else {
        let name = join_words(parts.skip(8));
        if name == seq!['.'] || name == seq!['.', '.'] {
            None
        } else {
            Some(
                (
                    strip_marks(name),
                    parts[0].len() > 0 && parts[0][0] == 'd',
                    match parse_unsigned(parts[4], 10, u64::MAX as nat) {
                        Some(n) => n,
                        None => 0,
                    },
                    parts[0],
                ),
            )
        }
    }
}

/// The entries of a list of lines, in order.
pub open spec fn entries_of(lines: Seq<Seq<char>>) -> Seq<EntryModel>
    decreases lines.len(),
{
    if lines.len() == 0 {
        Seq::empty()
    } else {
        let r = entries_of(lines.drop_last());
        match entry_of_line(lines.last()) {
            Some(e) => r.push(e),
            None => r,
        }
    }
}

/// A listed entry is a directory exactly when its permission field begins
/// with `d`: a symbolic link (`l`), a regular file (`-`) or anything else is
/// not one.  This holds of every entry a listing yields.
pub proof fn law_directory_exactly_when_permissions_start_with_d(lines: Seq<Seq<char>>)
    ensures
        forall|i: int|
            0 <= i < entries_of(lines).len() ==> ((#[trigger] entries_of(lines)[i]).1 <==> (
            entries_of(lines)[i].3.len() > 0 && entries_of(lines)[i].3[0] == 'd')),
    decreases lines.len(),
{
    if lines.len() > 0 {
        law_directory_exactly_when_permissions_start_with_d(lines.drop_last());
        let r = entries_of(lines.drop_last());
        if let Some(e) = entry_of_line(lines.last()) {
            assert forall|i: int| 0 <= i < r.push(e).len() implies ((#[trigger] r.push(e)[i]).1 <==> (
                r.push(e)[i].3.len() > 0 && r.push(e)[i].3[0] == 'd')) by {
                if i < r.len() {
                    assert(r.push(e)[i] == r[i]);
                }
            }
        }
    }
}

/// The view of a parsed entry.
pub open spec fn entry_model(f: FileEntry) -> EntryModel {
    (f.name@, f.is_dir, f.size as nat, f.permissions@)
}

proof fn lemma_line_end_from(s: Seq<char>, i: int)
    requires
        0 <= i <= s.len(),
        forall|j: int| 0 <= j < i ==> s[j] != '\n',
    ensures
        line_end(s) == i + line_end(s.skip(i)),
    decreases i,
{
    if i > 0 {
        assert(s.drop_first().skip(i - 1) =~= s.skip(i));
        assert forall|j: int| 0 <= j < i - 1 implies s.drop_first()[j] != '\n' by {
            assert(s.drop_first()[j] == s[j + 1]);
        }
        lemma_line_end_from(s.drop_first(), i - 1);
    } else {
        assert(s.skip(0) =~= s);
    }
}

pub proof fn lemma_word_len_from(s: Seq<char>, i: int)
    requires
        0 <= i <= s.len(),
        forall|j: int| 0 <= j < i ==> !is_ws(s[j]),
    ensures
        word_len(s) == i + word_len(s.skip(i)),
    decreases i,
{
    if i > 0 {
        assert(s.drop_first().skip(i - 1) =~= s.skip(i));
        assert forall|j: int| 0 <= j < i - 1 implies !is_ws(s.drop_first()[j]) by {
            assert(s.drop_first()[j] == s[j + 1]);
        }
        lemma_word_len_from(s.drop_first(), i - 1);
    } else {
        assert(s.skip(0) =~= s);
    }
}

/// The bounds of the words of `v[lo..hi]`.
fn word_ranges(v: &Vec<char>, lo: usize, hi: usize) -> (res: Vec<(usize, usize)>)
    requires
        lo <= hi <= v.len(),
    ensures
        res@.len() == words_of(v@.subrange(lo as int, hi as int)).len(),
        forall|j: int|
            0 <= j < res@.len() ==> lo <= (#[trigger] res@[j]).0 < res@[j].1 <= hi && v@.subrange(
                res@[j].0 as int,
                res@[j].1 as int,
            ) == words_of(v@.subrange(lo as int, hi as int))[j],
{
    let ghost all = words_of(v@.subrange(lo as int, hi as int));
    let mut out: Vec<(usize, usize)> = Vec::new();
    let mut i = lo;
    assert(all.skip(0) =~= all);
    loop
        invariant
            lo <= i <= hi <= v.len(),
            out@.len() <= all.len(),
            all.skip(out@.len() as int) == words_of(v@.subrange(i as int, hi as int)),
            forall|j: int|
                0 <= j < out@.len() ==> lo <= (#[trigger] out@[j]).0 < out@[j].1 <= hi
                    && v@.subrange(out@[j].0 as int, out@[j].1 as int) == all[j],
        ensures
            out@.len() == all.len(),
            forall|j: int|
                0 <= j < out@.len() ==> lo <= (#[trigger] out@[j]).0 < out@[j].1 <= hi
                    && v@.subrange(out@[j].0 as int, out@[j].1 as int) == all[j],
        decreases hi - i,
    {
        let ghost rest = v@.subrange(i as int, hi as int);
        let j = skip_ws_forward(v, i, hi);
        if j == hi {
            proof {
                assert(words_of(rest) == Seq::<Seq<char>>::empty());
                assert(all.skip(out@.len() as int).len() == 0);
            }
            break;
        }
        let mut k = j;
        while k < hi && !is_whitespace(v[k])
            invariant
                j <= k <= hi <= v.len(),
                forall|m: int| j <= m < k ==> !is_ws(v@[m]),
            decreases hi - k,
        {
            k = k + 1;
        }
        proof {
            let t = v@.subrange(j as int, hi as int);
            lemma_leading_ws(rest);
            assert(rest.skip(leading_ws(rest) as int) =~= t);
            assert(t[0] == v@[j as int]);
            assert forall|m: int| 0 <= m < k - j implies !is_ws(t[m]) by {
                assert(t[m] == v@[j + m]);
            }
            lemma_word_len_from(t, k - j);
            let u = t.skip(k - j);
            if u.len() > 0 {
                assert(u[0] == v@[k as int]);
            }
            assert(word_len(u) == 0);
            assert(k > j);
            assert(t.take(k - j) =~= v@.subrange(j as int, k as int));
            assert(u =~= v@.subrange(k as int, hi as int));
            assert(words_of(rest) == seq![v@.subrange(j as int, k as int)] + words_of(
                v@.subrange(k as int, hi as int),
            ));
            assert(all.skip(out@.len() as int)[0] == v@.subrange(j as int, k as int));
            assert(all.skip(out@.len() + 1int) =~= all.skip(out@.len() as int).drop_first());
        }
        out.push((j, k));
        i = k;
    }
    out
}

/// The entry of the line `v[lo..hi]`.
fn entry_from_line(v: &Vec<char>, lo: usize, hi: usize) -> (res: Option<FileEntry>)
    requires
        lo <= hi <= v.len(),
    ensures
        match entry_of_line(v@.subrange(lo as int, hi as int)) {
            None => res is None,
            Some(e) => res matches Some(f) && entry_model(f) == e,
        },
{
    let ghost line = v@.subrange(lo as int, hi as int);
    let total = chars_of("total ");
    if has_prefix_in(v, lo, hi, &total) {
        return None;
    }
    let (a, b) = trim_range(v, lo, hi);
    if a == b {
        return None;
    }
    let ranges = word_ranges(v, lo, hi);
    let ghost parts = words_of(line);
    if ranges.len() < 9 {
        return None;
    }
    let r0 = ranges[0];
    let permissions = string_from_range(v, r0.0, r0.1);
    let is_dir = v[r0.0] == 'd';
    let r4 = ranges[4];
    let size = match parse_unsigned_range(v, r4.0, r4.1, 10, u64::MAX) {
        Some(n) => n,
        None => 0,
    };
    let mut name: Vec<char> = Vec::new();
    let r8 = ranges[8];
    let mut c = r8.0;
    while c < r8.1
        invariant
            lo <= r8.0 <= c <= r8.1 <= hi <= v.len(),
            name@ == v@.subrange(r8.0 as int, c as int),
        decreases r8.1 - c,
    {
        name.push(v[c]);
        c = c + 1;
        proof {
            assert(name@ =~= v@.subrange(r8.0 as int, c as int));
        }
    }
    proof {
        assert(parts.skip(8).subrange(0, 1) =~= seq![parts[8]]);
    }
    let mut w: usize = 9;
    while w < ranges.len()
        invariant
            9 <= w <= ranges@.len(),
            ranges@.len() == parts.len(),
            parts == words_of(v@.subrange(lo as int, hi as int)),
            forall|j: int|
                0 <= j < ranges@.len() ==> lo <= (#[trigger] ranges@[j]).0 < ranges@[j].1 <= hi
                    && v@.subrange(ranges@[j].0 as int, ranges@[j].1 as int) == parts[j],
            name@ == join_words(parts.skip(8).subrange(0, w - 8)),
            hi <= v.len(),
        decreases ranges.len() - w,
    {
        let r = ranges[w];
        let ghost before = name@;
        name.push(' ');
        let mut c = r.0;
        while c < r.1
            invariant
                r.0 <= c <= r.1 <= v.len(),
                name@ == before + seq![' '] + v@.subrange(r.0 as int, c as int),
            decreases r.1 - c,
        {
            name.push(v[c]);
            c = c + 1;
            proof {
                assert(name@ =~= before + seq![' '] + v@.subrange(r.0 as int, c as int));
            }
        }
        proof {
            let ws = parts.skip(8).subrange(0, w + 1 - 8);
            assert(ws.drop_last() =~= parts.skip(8).subrange(0, w - 8));
            assert(ws.last() == parts[w as int]);
        }
        w = w + 1;
    }
    proof {
        assert(parts.skip(8).subrange(0, parts.len() - 8) =~= parts.skip(8));
        assert(trim_seq(line) =~= v@.subrange(a as int, b as int));
        assert(parts[0] == v@.subrange(r0.0 as int, r0.1 as int));
        assert(parts[0][0] == v@[r0.0 as int]);
    }
    if (name.len() == 1 && name[0] == '.') || (name.len() == 2 && name[0] == '.' && name[1] == '.') {
        proof {
            if name.len() == 1 {
                assert(name@ =~= seq!['.']);
            } else {
                assert(name@ =~= seq!['.', '.']);
            }
        }
        return None;
    }
    proof {
        if name@ == seq!['.'] {
            assert(name@.len() == 1);
        }
        if name@ == seq!['.', '.'] {
            assert(name@.len() == 2);
        }
    }
    let mut k = name.len();
    proof {
        assert(name@.take(name@.len() as int) =~= name@);
    }
    while k > 0 && (name[k - 1] == '@' || name[k - 1] == '/' || name[k - 1] == '*')
        invariant
            k <= name.len(),
            strip_marks(name@) == strip_marks(name@.take(k as int)),
        decreases k,
    {
        proof {
            assert(name@.take(k as int).drop_last() =~= name@.take(k - 1));
        }
        k = k - 1;
    }
    proof {
        assert(name@.take(name@.len() as int) =~= name@);
    }
    let final_name = string_from_range(&name, 0, k);
    proof {
        assert(name@.subrange(0, k as int) =~= name@.take(k as int));
    }
    Some(FileEntry { name: final_name, is_dir, size, permissions })
}

/// Parses the output of `ls -la` into entries, one per line that describes
/// a file other than `.` and `..`.
pub fn parse_ls_output(output: &str) -> (res: Vec<FileEntry>)
    ensures
        res@.map_values(|f: FileEntry| entry_model(f)) == entries_of(lines_of(output@)),
        forall|i: int|
            0 <= i < res@.len() ==> ((#[trigger] res@[i]).is_dir <==> (res@[i].permissions@.len() > 0
                && res@[i].permissions@[0] == 'd')),
{
    let v = chars_of(output);
    let n = v.len();
    let mut entries: Vec<FileEntry> = Vec::new();
    let ghost mut done: Seq<Seq<char>> = Seq::empty();
    let mut pos: usize = 0;
    assert(v@.skip(0) =~= v@);
    while pos < n
        invariant
            pos <= n == v@.len(),
            v@ == output@,
            lines_of(v@) == done + lines_of(v@.skip(pos as int)),
            entries@.map_values(|f: FileEntry| entry_model(f)) == entries_of(done),
        decreases n - pos,
    {
        let ghost s = v@.skip(pos as int);
        let mut e = pos;
        while e < n && v[e] != '\n'
            invariant
                pos <= e <= n == v@.len(),
                forall|m: int| pos <= m < e ==> v@[m] != '\n',
            decreases n - e,
        {
            e = e + 1;
        }
        proof {
            assert forall|m: int| 0 <= m < e - pos implies s[m] != '\n' by {
                assert(s[m] == v@[pos + m]);
            }
            lemma_line_end_from(s, e - pos);
            if e < n {
                assert(s.skip(e - pos)[0] == '\n');
            }
            assert(s.take(e - pos) =~= v@.subrange(pos as int, e as int));
        }
        let ghost line: Seq<char>;
        let line_hi = if e < n && e > pos && v[e - 1] == '\r' {
            e - 1
        } else {
            e
        };
        proof {
            if e < n {
                line = strip_cr(v@.subrange(pos as int, e as int));
                assert(line =~= v@.subrange(pos as int, line_hi as int));
                assert(s.skip(e - pos + 1) =~= v@.skip(e + 1));
                assert(lines_of(s) == seq![line] + lines_of(v@.skip(e + 1)));
            } else {
                line = s;
                assert(s =~= v@.subrange(pos as int, line_hi as int));
                assert(lines_of(s) == seq![line]);
                assert(v@.skip(n as int) =~= Seq::<char>::empty());
            }
        }
        let item = entry_from_line(&v, pos, line_hi);
        let ghost before = entries@;
        match item {
            Some(f) => {
                entries.push(f);
            },
            None => {},
        }
        proof {
            let d2 = done.push(line);
            assert(d2.drop_last() =~= done);
            assert(entries@.map_values(|f: FileEntry| entry_model(f)) =~= entries_of(d2));
            assert(done + lines_of(s) =~= d2 + (if e < n {
                lines_of(v@.skip(e + 1))
            } else {
                Seq::empty()
            }));
            done = d2;
        }
        pos = if e < n {
            e + 1
        } else {
            n
        };
    }
    proof {
        assert(v@.skip(n as int) =~= Seq::<char>::empty());
        assert(done + Seq::<Seq<char>>::empty() =~= done);
        let ls = lines_of(output@);
        law_directory_exactly_when_permissions_start_with_d(ls);
        assert forall|i: int| 0 <= i < entries@.len() implies ((#[trigger] entries@[i]).is_dir <==> (
            entries@[i].permissions@.len() > 0 && entries@[i].permissions@[0] == 'd')) by {
            assert(entries@.map_values(|f: FileEntry| entry_model(f))[i] == entry_model(entries@[i]));
            assert(entries_of(ls)[i] == entry_model(entries@[i]));
        }
    }
    entries
}

} // verus!

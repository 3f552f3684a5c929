//! OSC sequence handling shared by SSH and local terminals: shell detection,
//! the per-shell hook scripts that report the working directory, and a
//! streaming stripper that removes the OSC 7 / ready-marker sequences from
//! terminal output.

use vstd::prelude::*;
use crate::text::{
    find_in, first_occurrence, first_occurrence_from, has_prefix, lemma_first_occurrence_is,
    lemma_no_char_no_pattern, has_prefix_in, lemma_first_occurrence_from,
    lemma_occurs_in_range, lemma_utf8_len_prefix_le, occurs_at, lemma_utf8_len_concat, lemma_first_occurrence_shift, lemma_first_occurrence_skip, string_from_range, utf8_len,
    utf8_len_exceeds, char_utf8_width,
    ascii_lower, ascii_lower_seq, chars_of, contains_chars, contains_seq, push_char, push_range,
    push_str, skip_leading_char, skip_leading_pat, skip_trailing_char, strip_leading_char,
    strip_leading_pat, strip_trailing_char, to_ascii_lowercase, to_owned_string,
};

verus! {

/// Remote shell flavour detected via exec channel or local shell path.
#[derive(Debug, Clone, Copy, PartialEq, Eq, Structural)]
pub enum ShellKind {
    Bash,
    Zsh,
    Fish,
    PowerShell,
    PosixSh,
    Unknown,
}

/// The shell that a (lower-cased) name designates: the first of
/// `fish`, `zsh`, `bash`, `powershell`/`pwsh`, `sh` that occurs in it.
pub open spec fn shell_kind_of_name(name: Seq<char>) -> ShellKind {
    let s = ascii_lower_seq(name);
    if contains_seq(s, seq!['f', 'i', 's', 'h']) {
        ShellKind::Fish
    } else if contains_seq(s, seq!['z', 's', 'h']) {
        ShellKind::Zsh
    } else if contains_seq(s, seq!['b', 'a', 's', 'h']) {
        ShellKind::Bash
    } else if contains_seq(s, seq!['p', 'o', 'w', 'e', 'r', 's', 'h', 'e', 'l', 'l']) || contains_seq(
        s,
        seq!['p', 'w', 's', 'h'],
    ) {
        ShellKind::PowerShell
    } else if contains_seq(s, seq!['s', 'h']) {
        ShellKind::PosixSh
    } else {
        ShellKind::Unknown
    }
}

impl ShellKind {
    /// Classify a shell name / path string (case-insensitive).
    pub fn from_name(name: &str) -> (res: Self)
        ensures
            res == shell_kind_of_name(name@),
    {
        let s = to_ascii_lowercase(&chars_of(name));
        if contains_chars(&s, &vec!['f', 'i', 's', 'h']) {
            ShellKind::Fish
        } else if contains_chars(&s, &vec!['z', 's', 'h']) {
            ShellKind::Zsh
        } else if contains_chars(&s, &vec!['b', 'a', 's', 'h']) {
            ShellKind::Bash
        } else if contains_chars(&s, &vec!['p', 'o', 'w', 'e', 'r', 's', 'h', 'e', 'l', 'l'])
            || contains_chars(&s, &vec!['p', 'w', 's', 'h']) {
            ShellKind::PowerShell
        } else if contains_chars(&s, &vec!['s', 'h']) {
            ShellKind::PosixSh
        } else {
            ShellKind::Unknown
        }
    }
}

/// Lower-casing twice is lower-casing once.
pub proof fn lemma_ascii_lower_idempotent(s: Seq<char>)
    ensures
        ascii_lower_seq(ascii_lower_seq(s)) == ascii_lower_seq(s),
{
    assert forall|i: int| 0 <= i < s.len() implies ascii_lower(ascii_lower(s[i])) == ascii_lower(
        s[i],
    ) by {
        let c = s[i];
        if 'A' <= c && c <= 'Z' {
            let d = ((c as u32) + 32) as char;
            assert(d as u32 == (c as u32) + 32);
        }
    }
    assert(ascii_lower_seq(ascii_lower_seq(s)) =~= ascii_lower_seq(s));
}

/// Shell classification ignores ASCII case: a name and its lower-cased form
/// designate the same shell.
pub proof fn law_shell_kind_case_insensitive(name: Seq<char>)
    ensures
        shell_kind_of_name(ascii_lower_seq(name)) == shell_kind_of_name(name),
{
    lemma_ascii_lower_idempotent(name);
}

/// The session-unique ready marker `ESC ] 7777;DflyReady:<id> BEL`.
pub open spec fn ready_marker_of(session_id: Seq<char>) -> Seq<char> {
    seq!['\x1b', ']'] + ready_tag() + session_id + seq!['\x07']
}

/// The payload prefix that identifies the ready marker.
pub open spec fn ready_tag() -> Seq<char> {
    seq!['7', '7', '7', '7', ';', 'D', 'f', 'l', 'y', 'R', 'e', 'a', 'd', 'y', ':']
}

fn ready_tag_vec() -> (res: Vec<char>)
    ensures
        res@ == ready_tag(),
{
    vec!['7', '7', '7', '7', ';', 'D', 'f', 'l', 'y', 'R', 'e', 'a', 'd', 'y', ':']
}

/// Build a session-unique ready marker: `\x1b]7777;DflyReady:<id>\x07`.
pub fn build_ready_marker(session_id: &str) -> (res: String)
    ensures
        res@ == ready_marker_of(session_id@),
{
    let mut s = String::new();
    push_char(&mut s, '\x1b');
    push_char(&mut s, ']');
    let tag = ready_tag_vec();
    push_range(&mut s, &tag, 0, tag.len());
    push_str(&mut s, session_id);
    push_char(&mut s, '\x07');
    assert(tag@.subrange(0, tag@.len() as int) =~= tag@);
    assert(s@ =~= ready_marker_of(session_id@));
    s
}

pub const BASH_HOOK_HEAD: &'static str = " if [ -z \"${DFLY_INJ:-}\" ]; then export DFLY_INJ=1; __df_host(){ hostname 2>/dev/null || printf localhost; }; __df_emit(){ printf '\\033]7;file://%s%s\\007' \"$(__df_host)\" \"$PWD\"; }; case \"${PROMPT_COMMAND-}\" in (*__df_emit*) ;; (*) PROMPT_COMMAND=\"__df_emit${PROMPT_COMMAND:+; $PROMPT_COMMAND}\" ;; esac; fi; printf '";
pub const SCRIPT_TAIL: &'static str = "' 2>/dev/null\n";
pub const ZSH_HOOK_HEAD: &'static str = " if [ -z \"${DFLY_INJ:-}\" ]; then export DFLY_INJ=1; __df_host(){ hostname 2>/dev/null || printf localhost; }; __df_emit(){ printf '\\033]7;file://%s%s\\007' \"$(__df_host)\" \"$PWD\"; }; autoload -Uz add-zsh-hook 2>/dev/null || true; typeset -ga precmd_functions; [[ \" ${precmd_functions[*]} \" == *\" __df_emit \"* ]] || precmd_functions+=(__df_emit); fi; printf '";
pub const FISH_HOOK_HEAD: &'static str = " if not set -q DFLY_INJ; set -gx DFLY_INJ 1; function __df_emit --on-event fish_prompt; printf '\\033]7;file://%s%s\\007' (hostname) $PWD; end; end; printf '";
pub const POWERSHELL_HOOK_HEAD: &'static str = " if (-not $env:DFLY_INJ) { $env:DFLY_INJ='1'; function prompt { $p = (pwd).ProviderPath; $h = [System.Net.Dns]::GetHostName(); Write-Host -NoNewline \"`e]7;file://$h$p`a\"; return \"PS $p> \" } }; Write-Host -NoNewline \"`e]7777;DflyReady:";
pub const POWERSHELL_TAIL: &'static str = "`a\"\n";

/// How one character of the marker is written inside a `printf` format:
/// ESC as `\033`, BEL as `\007`, anything else as itself.
pub open spec fn printf_escape_char(c: char) -> Seq<char> {
    if c == '\x1b' {
        seq!['\\', '0', '3', '3']
    } else if c == '\x07' {
        seq!['\\', '0', '0', '7']
    } else {
        seq![c]
    }
}

/// The marker with ESC and BEL replaced by their `printf` escapes.
pub open spec fn printf_escape(s: Seq<char>) -> Seq<char>
    decreases s.len(),
{
    if s.len() == 0 {
        Seq::empty()
    } else {
        printf_escape(s.drop_last()) + printf_escape_char(s.last())
    }
}

/// The raw session id carried by a ready marker: leading ESCs, then leading
/// `]7777;DflyReady:` prefixes, then trailing BELs removed.
pub open spec fn marker_session_id(marker: Seq<char>) -> Seq<char> {
    strip_trailing_char(
        strip_leading_pat(strip_leading_char(marker, '\x1b'), seq![']'] + ready_tag()),
        '\x07',
    )
}

/// The hook script for `shell`, or `None` for shells that get no hook.
pub open spec fn injection_script_of(shell: ShellKind, marker: Seq<char>) -> Option<Seq<char>> {
    match shell {
        ShellKind::Bash => Some(BASH_HOOK_HEAD@ + printf_escape(marker) + SCRIPT_TAIL@),
        ShellKind::Zsh => Some(ZSH_HOOK_HEAD@ + printf_escape(marker) + SCRIPT_TAIL@),
        ShellKind::Fish => Some(FISH_HOOK_HEAD@ + printf_escape(marker) + SCRIPT_TAIL@),
        ShellKind::PowerShell => Some(
            POWERSHELL_HOOK_HEAD@ + marker_session_id(marker) + POWERSHELL_TAIL@,
        ),
        ShellKind::PosixSh | ShellKind::Unknown => None,
    }
}

/// `p` occurring at `k` makes `s` contain it.
proof fn lemma_occurs_contains(s: Seq<char>, p: Seq<char>, k: int)
    requires
        occurs_at(s, p, k),
    ensures
        contains_seq(s, p),
{
    lemma_first_occurrence_from(s, p, 0);
}

/// Whatever the marker, the zsh hook registers its working-directory report
/// in zsh's `precmd_functions`, while the bash hook puts it in
/// `PROMPT_COMMAND` (which zsh never runs); the two scripts differ.
pub proof fn law_zsh_hook_uses_precmd_functions(marker: Seq<char>)
    ensures
        injection_script_of(ShellKind::Zsh, marker) matches Some(z) && contains_seq(
            z,
            "precmd_functions+=(__df_emit)"@,
        ),
        injection_script_of(ShellKind::Bash, marker) matches Some(b) && contains_seq(
            b,
            "PROMPT_COMMAND="@,
        ),
        injection_script_of(ShellKind::Zsh, marker) != injection_script_of(ShellKind::Bash, marker),
{
    reveal_strlit(" if [ -z \"${DFLY_INJ:-}\" ]; then export DFLY_INJ=1; __df_host(){ hostname 2>/dev/null || printf localhost; }; __df_emit(){ printf '\\033]7;file://%s%s\\007' \"$(__df_host)\" \"$PWD\"; }; autoload -Uz add-zsh-hook 2>/dev/null || true; typeset -ga precmd_functions; [[ \" ${precmd_functions[*]} \" == *\" __df_emit \"* ]] || precmd_functions+=(__df_emit); fi; printf '");
    reveal_strlit(" if [ -z \"${DFLY_INJ:-}\" ]; then export DFLY_INJ=1; __df_host(){ hostname 2>/dev/null || printf localhost; }; __df_emit(){ printf '\\033]7;file://%s%s\\007' \"$(__df_host)\" \"$PWD\"; }; case \"${PROMPT_COMMAND-}\" in (*__df_emit*) ;; (*) PROMPT_COMMAND=\"__df_emit${PROMPT_COMMAND:+; $PROMPT_COMMAND}\" ;; esac; fi; printf '");
    reveal_strlit("precmd_functions+=(__df_emit)");
    reveal_strlit("PROMPT_COMMAND=");
    let zh = ZSH_HOOK_HEAD@;
    let bh = BASH_HOOK_HEAD@;
    assert(zh.len() == 356);
    assert(bh.len() == 315);
    let z = zh + printf_escape(marker) + SCRIPT_TAIL@;
    let b = bh + printf_escape(marker) + SCRIPT_TAIL@;
    assert(z.subrange(313, 342) =~= zh.subrange(313, 342));
    assert(zh.subrange(313, 342) =~= "precmd_functions+=(__df_emit)"@);
    lemma_occurs_contains(z, "precmd_functions+=(__df_emit)"@, 313);
    assert(b.subrange(231, 246) =~= bh.subrange(231, 246));
    assert(bh.subrange(231, 246) =~= "PROMPT_COMMAND="@);
    lemma_occurs_contains(b, "PROMPT_COMMAND="@, 231);
    assert(z[181] == zh[181]);
    assert(b[181] == bh[181]);
    assert(zh[181] == 'a');
    assert(bh[181] == 'c');
}

fn printf_escaped(marker: &Vec<char>) -> (res: String)
    ensures
        res@ == printf_escape(marker@),
{
    let mut out = String::new();
    let mut i: usize = 0;
    while i < marker.len()
        invariant
            i <= marker.len(),
            out@ == printf_escape(marker@.take(i as int)),
        decreases marker.len() - i,
    {
        let c = marker[i];
        let ghost before = out@;
        if c == '\x1b' {
            push_char(&mut out, '\\');
            push_char(&mut out, '0');
            push_char(&mut out, '3');
            push_char(&mut out, '3');
        } else if c == '\x07' {
            push_char(&mut out, '\\');
            push_char(&mut out, '0');
            push_char(&mut out, '0');
            push_char(&mut out, '7');
        } else {
            push_char(&mut out, c);
        }
        proof {
            let t = marker@.take(i + 1);
            assert(t.drop_last() =~= marker@.take(i as int));
            assert(t.last() == c);
            assert(out@ =~= before + printf_escape_char(c));
        }
        i = i + 1;
    }
    assert(marker@.take(marker@.len() as int) =~= marker@);
    out
}

/// Generate the shell-specific injection script that installs an OSC 7 hook
/// and emits the ready marker.  Returns `None` for shells we cannot inject
/// (plain POSIX sh, unknown).
pub fn injection_script(shell: ShellKind, ready_marker: &str) -> (res: Option<String>)
    ensures
        res matches Some(s) ==> injection_script_of(shell, ready_marker@) == Some(s@),
        res is None <==> injection_script_of(shell, ready_marker@) is None,
{
    let m = chars_of(ready_marker);
    match shell {
        ShellKind::Bash | ShellKind::Zsh | ShellKind::Fish => {
            let mut s = match shell {
                ShellKind::Bash => to_owned_string(BASH_HOOK_HEAD),
                ShellKind::Zsh => to_owned_string(ZSH_HOOK_HEAD),
                _ => to_owned_string(FISH_HOOK_HEAD),
            };
            let esc = printf_escaped(&m);
            push_str(&mut s, esc.as_str());
            push_str(&mut s, SCRIPT_TAIL);
            Some(s)
        },
        ShellKind::PowerShell => {
            let mut s = to_owned_string(POWERSHELL_HOOK_HEAD);
            let a = skip_leading_char(&m, 0, m.len(), '\x1b');
            let mut prefix: Vec<char> = ready_tag_vec();
            prefix.insert(0, ']');
            assert(prefix@ =~= seq![']'] + ready_tag());
            let b = skip_leading_pat(&m, a, m.len(), &prefix);
            let c = skip_trailing_char(&m, b, m.len(), '\x07');
            proof {
                assert(m@.subrange(0, m@.len() as int) =~= m@);
            }
            push_range(&mut s, &m, b, c);
            push_str(&mut s, POWERSHELL_TAIL);
            Some(s)
        },
        ShellKind::PosixSh | ShellKind::Unknown => None,
    }
}

// ---------------------------------------------------------------------------
// Streaming OSC stripper
// ---------------------------------------------------------------------------

/// The buffer size (in UTF-8 bytes) above which buffered text is given up on
/// and flushed as visible output.
pub const MAX_OSC_BUF: usize = 65536;

/// `ESC ]`, the start of an OSC sequence.
pub open spec fn osc_start() -> Seq<char> {
    seq!['\x1b', ']']
}

/// The scheme prefix of an OSC 7 payload.
pub open spec fn file_scheme() -> Seq<char> {
    seq!['f', 'i', 'l', 'e', ':', '/', '/']
}

/// The path carried by an OSC 7 payload `file://host/path`: everything from
/// the first `/` after the scheme; `None` when the scheme is missing or no
/// path follows the host.
pub open spec fn osc7_path(payload: Seq<char>) -> Option<Seq<char>> {
    if has_prefix(payload, file_scheme()) {
        let after = payload.skip(7);
        let path = if after.len() > 0 && after[0] == '/' {
            Some(after)
        } else {
            match first_occurrence(after, seq!['/']) {
                Some(k) => Some(after.skip(k)),
                None => None,
            }
        };
        match path {
            Some(x) => if x.len() == 0 {
                None
            } else {
                Some(x)
            },
            None => None,
        }
    } else {
        None
    }
}

/// The length of the sequence terminator that starts at `s[j]`: 1 for BEL,
/// 2 for ST (`ESC \`), `None` when no terminator starts there.
pub open spec fn terminator_at(s: Seq<char>, j: int) -> Option<int> {
    if s[j] == '\x07' {
        Some(1)
    } else if s[j] == '\x1b' && j + 1 < s.len() && s[j + 1] == '\\' {
        Some(2)
    } else {
        None
    }
}

/// The first terminator at or after index `j`: `(index, length)`.
pub open spec fn first_terminator_from(s: Seq<char>, j: int) -> Option<(int, int)>
    decreases s.len() - j,
{
    if j < 0 || j >= s.len() {
        None
    } else {
        match terminator_at(s, j) {
            Some(tl) => Some((j, tl)),
            None => first_terminator_from(s, j + 1),
        }
    }
}

/// Where the OSC sequence that starts `rest` ends: `(index, length)` of its
/// terminator, the first BEL or ST (`ESC \`) after the opening `ESC ]`,
/// whichever comes first.
pub open spec fn osc_terminator(rest: Seq<char>) -> Option<(int, int)> {
    first_terminator_from(rest, 2)
}

/// What a found terminator is: one that starts at `e`, fits in `s`, with no
/// terminator in `[j, e)`; and when none is found, none starts at or after `j`.
pub proof fn lemma_first_terminator_from(s: Seq<char>, j: int)
    requires
        0 <= j,
    ensures
        first_terminator_from(s, j) matches Some((e, tl)) ==> {
            &&& j <= e
            &&& terminator_at(s, e) == Some(tl)
            &&& 1 <= tl <= 2
            &&& e + tl <= s.len()
            &&& forall|k: int| j <= k < e ==> terminator_at(s, k) is None
        },
        first_terminator_from(s, j) is None ==> forall|k: int|
            j <= k < s.len() ==> terminator_at(s, k) is None,
    decreases s.len() - j,
{
    if j < s.len() && terminator_at(s, j) is None {
        lemma_first_terminator_from(s, j + 1);
    }
}

/// A terminator at `e` with none in `[j, e)` is the first one from `j`.
pub proof fn lemma_first_terminator_is(s: Seq<char>, j: int, e: int)
    requires
        0 <= j <= e < s.len(),
        terminator_at(s, e) is Some,
        forall|k: int| j <= k < e ==> terminator_at(s, k) is None,
    ensures
        first_terminator_from(s, j) == Some((e, terminator_at(s, e)->0)),
    decreases e - j,
{
    if j < e {
        lemma_first_terminator_is(s, j + 1, e);
    }
}

/// Text holding neither BEL nor ESC from index `j` on has no terminator there.
pub proof fn lemma_no_terminator(s: Seq<char>, j: int)
    requires
        0 <= j,
        forall|k: int| j <= k < s.len() ==> s[k] != '\x07' && s[k] != '\x1b',
    ensures
        first_terminator_from(s, j) is None,
    decreases s.len() - j,
{
    if j < s.len() {
        lemma_no_terminator(s, j + 1);
    }
}

/// A terminator found in `s` is still the first one once more text follows.
pub proof fn lemma_terminator_extend(s: Seq<char>, y: Seq<char>, j: int)
    requires
        0 <= j,
        first_terminator_from(s, j) is Some,
    ensures
        first_terminator_from(s + y, j) == first_terminator_from(s, j),
{
    lemma_first_terminator_from(s, j);
    let (e, tl) = first_terminator_from(s, j)->0;
    let t = s + y;
    assert forall|k: int| j <= k < e implies terminator_at(t, k) is None by {
        assert(terminator_at(s, k) is None);
        assert(t[k] == s[k]);
        if k + 1 < s.len() {
            assert(t[k + 1] == s[k + 1]);
        }
    }
    assert(t[e] == s[e]);
    if tl == 2 {
        assert(t[e + 1] == s[e + 1]);
    }
    assert(terminator_at(t, e) == terminator_at(s, e));
    lemma_first_terminator_is(t, j, e);
}

/// What a complete OSC sequence contributes: visible text, cwd paths, and
/// whether it is the ready marker.  `inner` is the text between `ESC ]` and
/// the terminator, `whole` the complete sequence.
pub open spec fn osc_effect(inner: Seq<char>, whole: Seq<char>) -> (Seq<char>, Seq<Seq<char>>, bool) {
    if has_prefix(inner, seq!['7', ';']) {
        (
            Seq::empty(),
            match osc7_path(inner.skip(2)) {
                Some(p) => seq![p],
                None => Seq::empty(),
            },
            false,
        )
    } else if has_prefix(inner, ready_tag()) {
        (Seq::empty(), Seq::empty(), true)
    } else {
        (whole, Seq::empty(), false)
    }
}

pub proof fn lemma_osc_terminator(rest: Seq<char>)
    ensures
        osc_terminator(rest) matches Some((e, tl)) ==> {
            &&& 2 <= e
            &&& 1 <= tl <= 2
            &&& e + tl <= rest.len()
        },
{
    lemma_first_terminator_from(rest, 2);
}

/// Scans buffered terminal output: `(visible, cwd paths, ready, kept)`.
/// Text outside OSC sequences is visible; complete OSC 7 and ready-marker
/// sequences are consumed, other complete OSC sequences pass through; an
/// incomplete trailing sequence is kept, unless it is longer than
/// `MAX_OSC_BUF` bytes, in which case it is released as visible text.  A
/// lone ESC at the very end is kept too: it may open a sequence whose `]`
/// arrives with the next chunk.
#[verifier::opaque]
pub open spec fn osc_scan(buf: Seq<char>) -> (Seq<char>, Seq<Seq<char>>, bool, Seq<char>)
    decreases buf.len(),
{
    match first_occurrence(buf, osc_start()) {
        None => if buf.len() > 0 && buf.last() == '\x1b' {
            (buf.drop_last(), Seq::empty(), false, seq!['\x1b'])
        } else {
            (buf, Seq::empty(), false, Seq::empty())
        },
        Some(p) => {
            proof {
                lemma_first_occurrence_from(buf, osc_start(), 0);
                assert(buf.subrange(p, p + 2) == osc_start());
                assert(buf.subrange(p, p + 2)[0] == buf[p]);
                assert(buf.subrange(p, p + 2)[1] == buf[p + 1]);
                lemma_osc_terminator(buf.skip(p));
            }
            let rest = buf.skip(p);
            match osc_terminator(rest) {
                None => if utf8_len(rest) > MAX_OSC_BUF {
                    (buf, Seq::empty(), false, Seq::empty())
                } else {
                    (buf.take(p), Seq::empty(), false, rest)
                },
                Some((e, tl)) => {
                    let effect = osc_effect(rest.subrange(2, e), rest.take(e + tl));
                    let tail = osc_scan(rest.skip(e + tl));
                    (buf.take(p) + effect.0 + tail.0, effect.1 + tail.1, effect.2 || tail.2, tail.3)
                },
            }
        },
    }
}

/// What `push(chunk)` yields on a stripper holding `buf`.
pub open spec fn osc_push(buf: Seq<char>, chunk: Seq<char>) -> (Seq<char>, Seq<Seq<char>>, bool, Seq<char>) {
    let all = buf + chunk;
    if utf8_len(all) > MAX_OSC_BUF && !contains_seq(all, seq!['\x1b']) {
        (all, Seq::empty(), false, Seq::empty())
    } else {
        osc_scan(all)
    }
}

/// The views of a list of strings.
pub open spec fn string_views(v: Seq<String>) -> Seq<Seq<char>> {
    v.map_values(|s: String| s@)
}

/// Result returned by [`OscStripper::push`].
pub struct OscResult {
    /// Text safe to display in the terminal (all recognised OSC sequences removed).
    pub visible: String,
    /// CWD paths extracted from OSC 7 sequences in this chunk.
    pub cwd_paths: Vec<String>,
    /// Whether the ready marker was detected in this chunk.
    pub ready: bool,
}

/// Streaming parser that strips OSC 7 and DflyReady sequences from terminal
/// output, handling split packets and extracting CWD paths.
pub struct OscStripper {
    buf: String,
}

/// Parse the payload `v[lo..hi]` of an OSC 7 sequence (`file://host/path`).
fn parse_osc7_payload(v: &Vec<char>, lo: usize, hi: usize) -> (res: Option<String>)
    requires
        lo <= hi <= v.len(),
    ensures
        res matches Some(s) ==> osc7_path(v@.subrange(lo as int, hi as int)) == Some(s@),
        res is None <==> osc7_path(v@.subrange(lo as int, hi as int)) is None,
{
    let ghost payload = v@.subrange(lo as int, hi as int);
    let scheme = vec!['f', 'i', 'l', 'e', ':', '/', '/'];
    assert(scheme@ =~= file_scheme());
    let slash = vec!['/'];
    assert(slash@ =~= seq!['/']);
    if !has_prefix_in(v, lo, hi, &scheme) {
        return None;
    }
    let a = lo + 7;
    assert(payload.skip(7) =~= v@.subrange(a as int, hi as int));
    let after_ghost = Ghost(payload.skip(7));
    if a < hi && v[a] == '/' {
        assert(payload.skip(7)[0] == v@[a as int]);
        let r = string_from_range(v, a, hi);
        assert(r@ =~= after_ghost@);
        return Some(r);
    }
    assert(a < hi ==> payload.skip(7)[0] == v@[a as int]);
    match find_in(v, &slash, a, hi) {
        Some(k) => {
            proof {
                let after = payload.skip(7);
                assert(after == v@.subrange(a as int, hi as int));
                assert(first_occurrence(after, seq!['/']) == Some((k - a) as int));
                assert(!(after.len() > 0 && after[0] == '/'));
                assert(after.skip(k - a) =~= v@.subrange(k as int, hi as int));
            }
            if k == hi {
                return None;
            }
            let r = string_from_range(v, k, hi);
            Some(r)
        },
        None => {
            proof {
                let after = payload.skip(7);
                assert(after == v@.subrange(a as int, hi as int));
                assert(first_occurrence(after, seq!['/']) is None);
            }
            None
        },
    }
}

proof fn lemma_scan_no_start(cur: Seq<char>)
    requires
        first_occurrence(cur, osc_start()) is None,
    ensures
        osc_scan(cur) == (if cur.len() > 0 && cur.last() == '\x1b' {
            (cur.drop_last(), Seq::<Seq<char>>::empty(), false, seq!['\x1b'])
        } else {
            (cur, Seq::<Seq<char>>::empty(), false, Seq::<char>::empty())
        }),
{
    reveal(osc_scan);
}

proof fn lemma_scan_incomplete(cur: Seq<char>, rp: int)
    requires
        first_occurrence(cur, osc_start()) == Some(rp),
        osc_terminator(cur.skip(rp)) is None,
    ensures
        osc_scan(cur) == (if utf8_len(cur.skip(rp)) > MAX_OSC_BUF {
            (cur, Seq::<Seq<char>>::empty(), false, Seq::<char>::empty())
        } else {
            (cur.take(rp), Seq::<Seq<char>>::empty(), false, cur.skip(rp))
        }),
{
    reveal(osc_scan);
}

proof fn lemma_scan_complete(cur: Seq<char>, rp: int, e: int, tl: int)
    requires
        first_occurrence(cur, osc_start()) == Some(rp),
        osc_terminator(cur.skip(rp)) == Some((e, tl)),
    ensures
        ({
            let rest = cur.skip(rp);
            let eff = osc_effect(rest.subrange(2, e), rest.take(e + tl));
            let t2 = osc_scan(rest.skip(e + tl));
            osc_scan(cur) == (cur.take(rp) + eff.0 + t2.0, eff.1 + t2.1, eff.2 || t2.2, t2.3)
        }),
{
    reveal(osc_scan);
}

/// Locates the terminator of the OSC sequence that starts at `data[p]`
/// (looking no further than `n`); returns its absolute index and length.
fn find_terminator(data: &Vec<char>, p: usize, n: usize) -> (res: Option<(usize, usize)>)
    requires
        p + 2 <= n <= data.len(),
    ensures
        ({
            let rest = data@.subrange(p as int, n as int);
            match osc_terminator(rest) {
                Some((e, tl)) => 2 <= e && 1 <= tl <= 2 && e + tl <= rest.len() && res == Some(
                    ((p + e) as usize, tl as usize),
                ),
                None => res is None,
            }
        }),
        res matches Some((e, tl)) ==> p + 2 <= e && 1 <= tl <= 2 && e + tl <= n,
{
    let ghost rest = data@.subrange(p as int, n as int);
    proof {
        lemma_osc_terminator(rest);
    }
    let mut j: usize = p + 2;
    while j < n
        invariant
            p + 2 <= j <= n <= data.len(),
            rest == data@.subrange(p as int, n as int),
            osc_terminator(rest) == first_terminator_from(rest, j - p),
        decreases n - j,
    {
        assert(rest[j - p] == data@[j as int]);
        if data[j] == '\x07' {
            return Some((j, 1));
        }
        if data[j] == '\x1b' && j + 1 < n {
            assert(rest[j - p + 1] == data@[j + 1]);
            if data[j + 1] == '\\' {
                return Some((j, 2));
            }
        }
        j = j + 1;
    }
    None
}

/// Applies the effect of the complete OSC sequence `data[p..e + tl]`.
fn apply_osc_effect(
    data: &Vec<char>,
    p: usize,
    e: usize,
    tl: usize,
    visible: &mut String,
    paths: &mut Vec<String>,
    ready: &mut bool,
)
    requires
        p + 2 <= e,
        e + tl <= data.len(),
    ensures
        ({
            let eff = osc_effect(data@.subrange(p + 2, e as int), data@.subrange(p as int, e + tl));
            &&& final(visible)@ == old(visible)@ + eff.0
            &&& string_views(final(paths)@) == string_views(old(paths)@) + eff.1
            &&& *final(ready) == (*old(ready) || eff.2)
        }),
{
    let ghost inner = data@.subrange(p + 2, e as int);
    let osc7 = vec!['7', ';'];
    assert(osc7@ =~= seq!['7', ';']);
    let tag = ready_tag_vec();
    if has_prefix_in(data, p + 2, e, &osc7) {
        assert(inner.skip(2) =~= data@.subrange(p + 4, e as int));
        match parse_osc7_payload(data, p + 4, e) {
            Some(path) => {
                paths.push(path);
            },
            None => {},
        }
    } else if has_prefix_in(data, p + 2, e, &tag) {
        *ready = true;
    } else {
        push_range(visible, data, p, e + tl);
    }
    assert(visible@ =~= old(visible)@ + osc_effect(inner, data@.subrange(p as int, e + tl)).0);
    assert(string_views(paths@) =~= string_views(old(paths)@) + osc_effect(
        inner,
        data@.subrange(p as int, e + tl),
    ).1);
}

impl OscStripper {
    /// The text held back for the next chunk.
    pub closed spec fn buffered(&self) -> Seq<char> {
        self.buf@
    }

    pub fn new(_ready_marker: &str) -> (res: Self)
        ensures
            res.buffered() == Seq::<char>::empty(),
    {
        Self { buf: String::new() }
    }

    /// Feed a chunk of terminal output.  Returns visible text with OSC
    /// sequences stripped, any CWD paths found, and whether the ready
    /// marker appeared.
    #[verifier::rlimit(40)]
    pub fn push(&mut self, chunk: &str) -> (res: OscResult)
        ensures
            ({
                let out = osc_push(old(self).buffered(), chunk@);
                &&& res.visible@ == out.0
                &&& string_views(res.cwd_paths@) == out.1
                &&& res.ready == out.2
                &&& final(self).buffered() == out.3
            }),
    {
        let ghost old_buf = self.buf@;
        push_str(&mut self.buf, chunk);
        let data = chars_of(self.buf.as_str());
        let ghost all = data@;
        assert(all == old_buf + chunk@);
        let esc = vec!['\x1b'];
        assert(esc@ =~= seq!['\x1b']);
        assert(data@.subrange(0, data@.len() as int) =~= data@);
        if utf8_len_exceeds(&data, 0, data.len(), MAX_OSC_BUF) && !contains_chars(&data, &esc) {
            let mut visible = String::new();
            std::mem::swap(&mut visible, &mut self.buf);
            return OscResult { visible, cwd_paths: Vec::new(), ready: false };
        }
        assert(osc_push(old_buf, chunk@) == osc_scan(all));
        let start = vec!['\x1b', ']'];
        assert(start@ =~= osc_start());

        let mut visible = String::new();
        let mut paths: Vec<String> = Vec::new();
        let mut ready = false;
        let mut pos: usize = 0;
        let n = data.len();
        assert(all.subrange(0, n as int) =~= all);
        assert(string_views(paths@) =~= Seq::<Seq<char>>::empty());
        loop
            invariant
                pos <= n == data.len(),
                all == data@,
                start@ == osc_start(),
                osc_push(old_buf, chunk@) == osc_scan(all),
                old_buf == old(self).buffered(),
                ({
                    let whole = osc_scan(all);
                    let tail = osc_scan(all.subrange(pos as int, n as int));
                    &&& whole.0 == visible@ + tail.0
                    &&& whole.1 == string_views(paths@) + tail.1
                    &&& whole.2 == (ready || tail.2)
                    &&& whole.3 == tail.3
                }),
            decreases n - pos,
        {
            let ghost cur = all.subrange(pos as int, n as int);
            let ghost v0 = visible@;
            let ghost p0 = string_views(paths@);
            match find_in(&data, &start, pos, n) {
                None => {
                    proof {
                        lemma_scan_no_start(cur);
                    }
                    assert(p0 + Seq::<Seq<char>>::empty() =~= p0);
                    if pos < n && data[n - 1] == '\x1b' {
                        push_range(&mut visible, &data, pos, n - 1);
                        self.buf = String::new();
                        push_char(&mut self.buf, '\x1b');
                        assert(cur.drop_last() =~= all.subrange(pos as int, n - 1));
                        assert(self.buf@ =~= seq!['\x1b']);
                        return OscResult { visible, cwd_paths: paths, ready };
                    }
                    push_range(&mut visible, &data, pos, n);
                    self.buf = String::new();
                    return OscResult { visible, cwd_paths: paths, ready };
                },
                Some(p) => {
                    let ghost rp = (p - pos) as int;
                    proof {
                        lemma_first_occurrence_from(cur, osc_start(), 0);
                        assert(cur.skip(rp) =~= all.subrange(p as int, n as int));
                        assert(cur.take(rp) =~= all.subrange(pos as int, p as int));
                        assert(cur.subrange(rp, rp + 2) == osc_start());
                        assert(cur.subrange(rp, rp + 2)[0] == data@[p as int]);
                        assert(cur.subrange(rp, rp + 2)[1] == data@[p + 1]);
                    }
                    push_range(&mut visible, &data, pos, p);
                    match find_terminator(&data, p, n) {
                        None => {
                            proof {
                                lemma_scan_incomplete(cur, rp);
                            }
                            if utf8_len_exceeds(&data, p, n, MAX_OSC_BUF) {
                                push_range(&mut visible, &data, p, n);
                                self.buf = String::new();
                                assert(all.subrange(pos as int, p as int) + all.subrange(
                                    p as int,
                                    n as int,
                                ) =~= cur);
                                assert(p0 + Seq::<Seq<char>>::empty() =~= p0);
                                return OscResult { visible, cwd_paths: paths, ready };
                            } else {
                                self.buf = string_from_range(&data, p, n);
                                assert(p0 + Seq::<Seq<char>>::empty() =~= p0);
                                return OscResult { visible, cwd_paths: paths, ready };
                            }
                        },
                        Some((e, tl)) => {
                            let ghost e_rel = (e - p) as int;
                            proof {
                                lemma_scan_complete(cur, rp, e_rel, tl as int);
                            }
                            let ghost v1 = visible@;
                            apply_osc_effect(&data, p, e, tl, &mut visible, &mut paths, &mut ready);
                            let next = e + tl;
                            proof {
                                let rest = cur.skip(rp);
                                assert(rest.skip(e_rel + tl) =~= all.subrange(next as int, n as int));
                                assert(rest.subrange(2, e_rel) =~= data@.subrange(p + 2, e as int));
                                assert(rest.take(e_rel + tl) =~= data@.subrange(p as int, e + tl));
                                let eff = osc_effect(rest.subrange(2, e_rel), rest.take(e_rel + tl));
                                let t2 = osc_scan(all.subrange(next as int, n as int));
                                assert(v1 == v0 + cur.take(rp));
                                assert(osc_scan(all).0 =~= visible@ + t2.0);
                                assert(osc_scan(all).1 =~= string_views(paths@) + t2.1);
                            }
                            pos = next;
                        },
                    }
                },
            }
        }
    }

    /// Drain any buffered bytes as visible text (used on timeout / teardown).
    pub fn flush(&mut self) -> (res: String)
        ensures
            res@ == old(self).buffered(),
            final(self).buffered() == Seq::<char>::empty(),
    {
        let mut out = String::new();
        std::mem::swap(&mut out, &mut self.buf);
        out
    }
}

/// Output that holds no ESC passes through a fresh stripper unchanged: it is
/// all visible, carries no path and no ready marker, and nothing is kept.
pub proof fn law_plain_text_passes_through(chunk: Seq<char>)
    requires
        !contains_seq(chunk, seq!['\x1b']),
    ensures
        osc_push(Seq::empty(), chunk) == (chunk, Seq::<Seq<char>>::empty(), false, Seq::<char>::empty()),
{
    assert(Seq::<char>::empty() + chunk =~= chunk);
    reveal(osc_scan);
    lemma_no_char_no_pattern(chunk, '\x1b', osc_start());
    if chunk.len() > 0 {
        lemma_first_occurrence_from(chunk, seq!['\x1b'], 0);
        let l = chunk.len() - 1;
        assert(chunk.subrange(l, l + 1)[0] == chunk.last());
        if chunk.last() == '\x1b' {
            assert(chunk.subrange(l, l + 1) =~= seq!['\x1b']);
            assert(occurs_at(chunk, seq!['\x1b'], l));
        }
    }
}

/// One lone ESC is a single byte of UTF-8.
proof fn lemma_utf8_len_esc()
    ensures
        utf8_len(seq!['\x1b']) == 1,
{
    let e = seq!['\x1b'];
    assert(e.drop_last() =~= Seq::<char>::empty());
    assert(e.last() == '\x1b');
    assert(utf8_len(e.drop_last()) == 0);
    assert(('\x1b' as u32) < 0x80);
    assert(char_utf8_width('\x1b') == 1);
}

proof fn lemma_scan_keeps_little(buf: Seq<char>)
    ensures
        utf8_len(osc_scan(buf).3) <= MAX_OSC_BUF,
    decreases buf.len(),
{
    reveal(osc_scan);
    if let Some(p) = first_occurrence(buf, osc_start()) {
        lemma_first_occurrence_from(buf, osc_start(), 0);
        assert(buf.subrange(p, p + 2)[0] == buf[p]);
        assert(buf.subrange(p, p + 2)[1] == buf[p + 1]);
        lemma_osc_terminator(buf.skip(p));
        if let Some((e, tl)) = osc_terminator(buf.skip(p)) {
            lemma_scan_keeps_little(buf.skip(p).skip(e + tl));
        }
    } else {
        assert(utf8_len(Seq::<char>::empty()) == 0);
        lemma_utf8_len_esc();
    }
}

/// Whatever is pushed, the text held back afterwards never exceeds
/// `MAX_OSC_BUF` bytes of UTF-8.
pub proof fn law_buffer_stays_bounded(buf: Seq<char>, chunk: Seq<char>)
    ensures
        utf8_len(osc_push(buf, chunk).3) <= MAX_OSC_BUF,
{
    lemma_scan_keeps_little(buf + chunk);
    assert(utf8_len(Seq::<char>::empty()) == 0);
}

/// Text before the first `ESC ]` that cannot open a sequence across the
/// boundary is shown as it is, ahead of whatever the rest yields.
proof fn lemma_scan_prefix(u: Seq<char>, w: Seq<char>)
    requires
        forall|j: int| 0 <= j < u.len() ==> !occurs_at(u + w, osc_start(), j),
        w.len() > 0 || u.len() == 0 || u.last() != '\x1b',
    ensures
        ({
            let t = osc_scan(w);
            osc_scan(u + w) == (u + t.0, t.1, t.2, t.3)
        }),
{
    reveal(osc_scan);
    let s = u + w;
    let d = u.len() as int;
    lemma_first_occurrence_shift(s, osc_start(), d);
    assert(s.skip(d) =~= w);
    lemma_first_occurrence_skip(s, osc_start(), d, 0);
    match first_occurrence(w, osc_start()) {
        None => {
            if w.len() > 0 {
                assert(s.drop_last() =~= u + w.drop_last());
                assert(s.last() == w.last());
            } else {
                assert(s =~= u);
                assert(u + w =~= u);
            }
        },
        Some(q) => {
            lemma_first_occurrence_from(w, osc_start(), 0);
            assert(first_occurrence(s, osc_start()) == Some(d + q));
            assert(s.skip(d + q) =~= w.skip(q));
            assert(s.take(d + q) =~= u + w.take(q));
            lemma_osc_terminator(w.skip(q));
            match osc_terminator(w.skip(q)) {
                None => {
                    assert(u + w.take(q) + Seq::<char>::empty() =~= u + w.take(q));
                },
                Some((e, tl)) => {
                    let rest = w.skip(q);
                    let eff = osc_effect(rest.subrange(2, e), rest.take(e + tl));
                    let t2 = osc_scan(rest.skip(e + tl));
                    assert((u + w.take(q)) + eff.0 + t2.0 =~= u + (w.take(q) + eff.0 + t2.0));
                },
            }
        },
    }
}

/// The text a scan keeps is never longer in UTF-8 than the text scanned.
proof fn lemma_scan_kept_le(x: Seq<char>)
    ensures
        utf8_len(osc_scan(x).3) <= utf8_len(x),
    decreases x.len(),
{
    reveal(osc_scan);
    match first_occurrence(x, osc_start()) {
        None => {
            if x.len() > 0 && x.last() == '\x1b' {
                lemma_utf8_len_esc();
                assert(utf8_len(x) == utf8_len(x.drop_last()) + char_utf8_width(x.last()));
            } else {
                assert(utf8_len(Seq::<char>::empty()) == 0);
            }
        },
        Some(p) => {
            lemma_first_occurrence_from(x, osc_start(), 0);
            let r = x.skip(p);
            lemma_osc_terminator(r);
            lemma_utf8_len_concat(x.take(p), r);
            assert(x.take(p) + r =~= x);
            if let Some((e, tl)) = osc_terminator(r) {
                lemma_scan_kept_le(r.skip(e + tl));
                lemma_utf8_len_concat(r.take(e + tl), r.skip(e + tl));
                assert(r.take(e + tl) + r.skip(e + tl) =~= r);
            } else {
                assert(utf8_len(Seq::<char>::empty()) == 0);
            }
        },
    }
}

/// Scanning `x + y` is scanning `x`, then scanning what `x` kept followed
/// by `y` (as long as the whole stays within `MAX_OSC_BUF` bytes).
#[verifier::rlimit(30)]
proof fn lemma_scan_concat(x: Seq<char>, y: Seq<char>)
    requires
        utf8_len(x + y) <= MAX_OSC_BUF,
    ensures
        ({
            let a = osc_scan(x);
            let b = osc_scan(a.3 + y);
            osc_scan(x + y) == (a.0 + b.0, a.1 + b.1, a.2 || b.2, b.3)
        }),
    decreases x.len(),
{
    reveal(osc_scan);
    let s = x + y;
    let st = osc_start();
    lemma_first_occurrence_from(x, st, 0);
    assert forall|j: int| 0 <= j && j + 2 <= x.len() && occurs_at(s, st, j) implies occurs_at(
        x,
        st,
        j,
    ) by {
        assert(s.subrange(j, j + 2) =~= x.subrange(j, j + 2));
    }
    match first_occurrence(x, st) {
        None => {
            if x.len() > 0 && x.last() == '\x1b' {
                let u = x.drop_last();
                let w = seq!['\x1b'] + y;
                assert(u + w =~= s);
                lemma_scan_prefix(u, w);
            } else {
                assert forall|j: int| 0 <= j < x.len() implies !occurs_at(s, st, j) by {
                    if occurs_at(s, st, j) && j + 2 > x.len() {
                        assert(s.subrange(j, j + 2)[0] == s[j]);
                        assert(s[j] == x.last());
                    }
                }
                lemma_scan_prefix(x, y);
                assert(Seq::<char>::empty() + y =~= y);
                assert(Seq::<Seq<char>>::empty() + osc_scan(y).1 =~= osc_scan(y).1);
            }
        },
        Some(p) => {
            let r = x.skip(p);
            lemma_osc_terminator(r);
            assert(x.take(p) + (r + y) =~= s);
            lemma_utf8_len_concat(x.take(p), r + y);
            lemma_utf8_len_concat(r, y);
            assert forall|j: int| 0 <= j < p implies !occurs_at(s, st, j) by {}
            match osc_terminator(r) {
                None => {
                    lemma_scan_prefix(x.take(p), r + y);
                    assert(Seq::<Seq<char>>::empty() + osc_scan(r + y).1 =~= osc_scan(r + y).1);
                },
                Some((e, tl)) => {
                    assert(s.subrange(p, p + 2) =~= x.subrange(p, p + 2));
                    lemma_first_occurrence_is(s, st, 0, p);
                    assert(s.skip(p) =~= r + y);
                    assert(s.take(p) =~= x.take(p));
                    lemma_terminator_extend(r, y, 2);
                    let x2 = r.skip(e + tl);
                    assert((r + y).skip(e + tl) =~= x2 + y);
                    assert((r + y).subrange(2, e) =~= r.subrange(2, e));
                    assert((r + y).take(e + tl) =~= r.take(e + tl));
                    assert(r.take(e + tl) + (x2 + y) =~= r + y);
                    lemma_utf8_len_concat(r.take(e + tl), x2 + y);
                    lemma_scan_concat(x2, y);
                    let eff = osc_effect(r.subrange(2, e), r.take(e + tl));
                    let t = osc_scan(x2);
                    let b = osc_scan(t.3 + y);
                    assert(x.take(p) + eff.0 + (t.0 + b.0) =~= (x.take(p) + eff.0 + t.0) + b.0);
                    assert(eff.1 + (t.1 + b.1) =~= (eff.1 + t.1) + b.1);
                },
            }
        },
    }
}

/// Output split anywhere into two chunks yields what it yields pushed at
/// once: the visible text, the working-directory paths and the ready flag of
/// the two pushes together are those of the single push, and the same text
/// is held back afterwards (for a held buffer and chunks that stay within
/// `MAX_OSC_BUF` bytes together).
pub proof fn law_split_chunks_are_reassembled(held: Seq<char>, a: Seq<char>, b: Seq<char>)
    requires
        utf8_len(held + a + b) <= MAX_OSC_BUF,
    ensures
        ({
            let first = osc_push(held, a);
            let second = osc_push(first.3, b);
            let whole = osc_push(held, a + b);
            &&& whole.0 == first.0 + second.0
            &&& whole.1 == first.1 + second.1
            &&& whole.2 == (first.2 || second.2)
            &&& whole.3 == second.3
        }),
{
    let x = held + a;
    assert(held + (a + b) =~= x + b);
    lemma_utf8_len_concat(x, b);
    let k = osc_scan(x).3;
    lemma_scan_kept_le(x);
    lemma_utf8_len_concat(k, b);
    lemma_scan_concat(x, b);
}

/// The text held back after a push is empty, a lone ESC, or an unfinished
/// sequence that begins with `ESC ]`.
pub proof fn law_held_text_shape(held: Seq<char>, chunk: Seq<char>)
    ensures
        ({
            let k = osc_push(held, chunk).3;
            k.len() == 0 || k == seq!['\x1b'] || has_prefix(k, osc_start())
        }),
{
    lemma_scan_kept_shape(held + chunk);
}

proof fn lemma_scan_kept_shape(x: Seq<char>)
    ensures
        ({
            let k = osc_scan(x).3;
            k.len() == 0 || k == seq!['\x1b'] || has_prefix(k, osc_start())
        }),
    decreases x.len(),
{
    reveal(osc_scan);
    if let Some(p) = first_occurrence(x, osc_start()) {
        lemma_first_occurrence_from(x, osc_start(), 0);
        let r = x.skip(p);
        lemma_osc_terminator(r);
        if let Some((e, tl)) = osc_terminator(r) {
            lemma_scan_kept_shape(r.skip(e + tl));
        } else {
            assert(r.take(2) =~= x.subrange(p, p + 2));
        }
    }
}

/// Input longer than `MAX_OSC_BUF` bytes that holds no ESC at all is released
/// whole as visible text, with no path and no ready marker, and nothing is
/// held back.
pub proof fn law_long_plain_input_released(held: Seq<char>, chunk: Seq<char>)
    requires
        utf8_len(held + chunk) > MAX_OSC_BUF,
        !contains_seq(held + chunk, seq!['\x1b']),
    ensures
        osc_push(held, chunk) == (
            held + chunk,
            Seq::<Seq<char>>::empty(),
            false,
            Seq::<char>::empty(),
        ),
{
}

/// The BEL that closes a ready marker is its first terminator.
proof fn lemma_marker_terminator(session_id: Seq<char>)
    requires
        !contains_seq(session_id, seq!['\x07']),
        !contains_seq(session_id, seq!['\x1b', '\\']),
    ensures
        osc_terminator(ready_marker_of(session_id)) == Some(
            ((ready_marker_of(session_id).len() - 1) as int, 1int),
        ),
{
    let m = ready_marker_of(session_id);
    let n = m.len() as int;
    // the BEL at the end is the first terminator
    lemma_first_occurrence_from(session_id, seq!['\x07'], 0);
    lemma_first_occurrence_from(session_id, seq!['\x1b', '\\'], 0);
    assert forall|j: int| 2 <= j < n - 1 implies terminator_at(m, j) is None by {
        if j >= 17 {
            let k = j - 17;
            assert(m[j] == session_id[k]);
            if session_id[k] == '\x07' {
                assert(session_id.subrange(k, k + 1) =~= seq!['\x07']);
                assert(occurs_at(session_id, seq!['\x07'], k));
            }
            if session_id[k] == '\x1b' && j + 1 < n - 1 {
                assert(m[j + 1] == session_id[k + 1]);
                if session_id[k + 1] == '\\' {
                    assert(session_id.subrange(k, k + 2) =~= seq!['\x1b', '\\']);
                    assert(occurs_at(session_id, seq!['\x1b', '\\'], k));
                }
            }
        }
    }
    lemma_first_terminator_is(m, 2, n - 1);
}

/// A ready marker pushed into a fresh stripper is recognised and hidden:
/// nothing visible, no path, `ready` set, nothing kept (for a session id
/// without BEL or ST).
pub proof fn law_ready_marker_detected(session_id: Seq<char>)
    requires
        !contains_seq(session_id, seq!['\x07']),
        !contains_seq(session_id, seq!['\x1b', '\\']),
    ensures
        osc_push(Seq::empty(), ready_marker_of(session_id)) == (
            Seq::<char>::empty(),
            Seq::<Seq<char>>::empty(),
            true,
            Seq::<char>::empty(),
        ),
{
    let m = ready_marker_of(session_id);
    let n = m.len() as int;
    assert(Seq::<char>::empty() + m =~= m);
    // an ESC is present, so the size valve does not apply
    assert(m.subrange(0, 1) =~= seq!['\x1b']);
    lemma_first_occurrence_from(m, seq!['\x1b'], 0);
    // the sequence starts at 0
    assert(m.subrange(0, 2) =~= osc_start());
    lemma_first_occurrence_is(m, osc_start(), 0, 0);
    assert(m.skip(0) =~= m);
    lemma_marker_terminator(session_id);
    assert(osc_terminator(m) == Some((n - 1, 1int)));
    let inner = m.subrange(2, n - 1);
    assert(inner.take(15) =~= ready_tag());
    assert(inner[1] == '7');
    assert(!has_prefix(inner, seq!['7', ';']));
    assert(m.skip(n) =~= Seq::<char>::empty());
    reveal(osc_scan);
    lemma_first_occurrence_from(Seq::<char>::empty(), osc_start(), 0);
    assert(osc_scan(Seq::<char>::empty()) == (
        Seq::<char>::empty(),
        Seq::<Seq<char>>::empty(),
        false,
        Seq::<char>::empty(),
    ));
    assert(m.take(0) =~= Seq::<char>::empty());
    assert(osc_scan(m).0 =~= Seq::<char>::empty());
    assert(osc_scan(m).1 =~= Seq::<Seq<char>>::empty());
}


/// The OSC 7 report `ESC ] 7 ; file://<host><path> BEL` of a working directory.
pub open spec fn cwd_report(host: Seq<char>, path: Seq<char>) -> Seq<char> {
    seq!['\x1b', ']', '7', ';'] + file_scheme() + host + path + seq!['\x07']
}

proof fn lemma_scan_empty()
    ensures
        osc_scan(Seq::<char>::empty()) == (
            Seq::<char>::empty(),
            Seq::<Seq<char>>::empty(),
            false,
            Seq::<char>::empty(),
        ),
{
    reveal(osc_scan);
    lemma_first_occurrence_from(Seq::<char>::empty(), osc_start(), 0);
}

proof fn lemma_cwd_report_chars(host: Seq<char>, path: Seq<char>)
    requires
        forall|j: int| 0 <= j < host.len() ==> host[j] != '/' && host[j] != '\x1b' && host[j] != '\x07',
        forall|j: int| 0 <= j < path.len() ==> path[j] != '\x1b' && path[j] != '\x07',
    ensures
        ({
            let r = cwd_report(host, path);
            &&& r.len() == 12 + host.len() + path.len()
            &&& r[0] == '\x1b' && r[1] == ']'
            &&& r[r.len() - 1] == '\x07'
            &&& forall|j: int| 2 <= j < r.len() - 1 ==> r[j] != '\x1b' && r[j] != '\x07'
        }),
{
    let r = cwd_report(host, path);
    let hl = host.len() as int;
    assert forall|j: int| 2 <= j < r.len() - 1 implies r[j] != '\x1b' && r[j] != '\x07' by {
        if j >= 11 + hl {
            assert(r[j] == path[j - 11 - hl]);
        } else if j >= 11 {
            assert(r[j] == host[j - 11]);
        }
    }
}

proof fn lemma_report_prefix_held(r: Seq<char>, k: int)
    requires
        2 <= k < r.len(),
        r[0] == '\x1b' && r[1] == ']',
        forall|j: int| 2 <= j < r.len() - 1 ==> r[j] != '\x1b' && r[j] != '\x07',
        utf8_len(r) <= MAX_OSC_BUF,
    ensures
        osc_push(Seq::empty(), r.take(k)) == (
            Seq::<char>::empty(),
            Seq::<Seq<char>>::empty(),
            false,
            r.take(k),
        ),
{
    reveal(osc_scan);
    let x = r.take(k);
    assert(Seq::<char>::empty() + x =~= x);
    assert(x.subrange(0, 1) =~= seq!['\x1b']);
    lemma_first_occurrence_is(x, seq!['\x1b'], 0, 0);
    assert(x.subrange(0, 2) =~= osc_start());
    lemma_first_occurrence_is(x, osc_start(), 0, 0);
    assert(x.skip(0) =~= x);
    assert forall|j: int| 2 <= j < x.len() implies x[j] != '\x07' && x[j] != '\x1b' by {
        assert(x[j] == r[j]);
    }
    lemma_no_terminator(x, 2);
    assert(osc_terminator(x) is None);
    lemma_utf8_len_prefix_le(r, k);
    assert(x.take(0) =~= Seq::<char>::empty());
}

proof fn lemma_cwd_path_of_report(host: Seq<char>, path: Seq<char>)
    requires
        forall|j: int| 0 <= j < host.len() ==> host[j] != '/',
        path.len() > 0,
        path[0] == '/',
    ensures
        osc7_path(file_scheme() + host + path) == Some(path),
{
    let payload = file_scheme() + host + path;
    let hl = host.len() as int;
    assert(payload.take(7) =~= file_scheme());
    let after = payload.skip(7);
    assert(after =~= host + path);
    if hl == 0 {
        assert(after =~= path);
    } else {
        assert(after[0] == host[0]);
        assert(after.subrange(hl, hl + 1) =~= seq!['/']);
        assert forall|j: int| 0 <= j < hl implies !occurs_at(after, seq!['/'], j) by {
            if occurs_at(after, seq!['/'], j) {
                assert(after.subrange(j, j + 1)[0] == after[j]);
                assert(after[j] == host[j]);
            }
        }
        lemma_first_occurrence_is(after, seq!['/'], 0, hl);
        assert(after.skip(hl) =~= path);
    }
}

proof fn lemma_whole_report(host: Seq<char>, path: Seq<char>)
    requires
        forall|j: int| 0 <= j < host.len() ==> host[j] != '/' && host[j] != '\x1b' && host[j] != '\x07',
        path.len() > 0,
        path[0] == '/',
        forall|j: int| 0 <= j < path.len() ==> path[j] != '\x1b' && path[j] != '\x07',
    ensures
        contains_seq(cwd_report(host, path), seq!['\x1b']),
        osc_scan(cwd_report(host, path)) == (
            Seq::<char>::empty(),
            seq![path],
            false,
            Seq::<char>::empty(),
        ),
{
    let r = cwd_report(host, path);
    let n = r.len() as int;
    lemma_cwd_report_chars(host, path);
    lemma_cwd_path_of_report(host, path);
    lemma_scan_empty();
    reveal(osc_scan);
    assert(r.subrange(0, 1) =~= seq!['\x1b']);
    lemma_first_occurrence_is(r, seq!['\x1b'], 0, 0);
    assert(r.subrange(0, 2) =~= osc_start());
    lemma_first_occurrence_is(r, osc_start(), 0, 0);
    assert(r.skip(0) =~= r);
    assert forall|j: int| 2 <= j < n - 1 implies terminator_at(r, j) is None by {
        assert(r[j] != '\x07' && r[j] != '\x1b');
    }
    lemma_first_terminator_is(r, 2, n - 1);
    assert(osc_terminator(r) == Some((n - 1, 1int)));
    let inner = r.subrange(2, n - 1);
    assert(inner =~= seq!['7', ';'] + (file_scheme() + host + path));
    assert(inner.take(2) =~= seq!['7', ';']);
    assert(inner.skip(2) =~= file_scheme() + host + path);
    assert(r.skip(n) =~= Seq::<char>::empty());
    assert(r.take(0) =~= Seq::<char>::empty());
    assert(osc_scan(r).0 =~= Seq::<char>::empty());
    assert(osc_scan(r).1 =~= seq![path]);
}

/// Output split inside a working-directory report loses nothing: when the
/// report is cut anywhere after its opening `ESC ]`, the first part is held
/// back whole (nothing shown), and with the rest the report is recognised,
/// its path reported and nothing shown or kept.
pub proof fn law_split_cwd_report_is_reassembled(host: Seq<char>, path: Seq<char>, k: int)
    requires
        forall|j: int| 0 <= j < host.len() ==> host[j] != '/' && host[j] != '\x1b' && host[j] != '\x07',
        path.len() > 0,
        path[0] == '/',
        forall|j: int| 0 <= j < path.len() ==> path[j] != '\x1b' && path[j] != '\x07',
        2 <= k < cwd_report(host, path).len(),
        utf8_len(cwd_report(host, path)) <= MAX_OSC_BUF,
    ensures
        ({
            let r = cwd_report(host, path);
            &&& osc_push(Seq::empty(), r.take(k)) == (
                Seq::<char>::empty(),
                Seq::<Seq<char>>::empty(),
                false,
                r.take(k),
            )
            &&& osc_push(r.take(k), r.skip(k)) == (
                Seq::<char>::empty(),
                seq![path],
                false,
                Seq::<char>::empty(),
            )
        }),
{
    let r = cwd_report(host, path);
    lemma_cwd_report_chars(host, path);
    lemma_report_prefix_held(r, k);
    lemma_whole_report(host, path);
    assert(r.take(k) + r.skip(k) =~= r);
}

} // verus!

//! XDG desktop integration: the desktop entry, `mimeapps.list` clean-up and
//! the decisions taken on what `xdg-mime` and `xdg-settings` report.
use crate::text::{
    append_chars, chars_eq_str, copy_chars, chars_of, contains_chars, contains_seq, first_index_chars,
    first_index_of, join_chars, join_seq, lines_chars, lines_seq, push_str_chars, replace_chars,
    replace_seq, split_chars, split_seq, string_of, string_views, sub_chars,
    trim_chars, trim_seq, views, opt_view, decode_utf8_lossy, utf8_lossy, occurs_at_chars,
    starts_with_seq,
};
use vstd::utf8::{decode_utf8, valid_utf8};
use vstd::prelude::*;

verus! {

broadcast use vstd::string::group_string_axioms;

/// The XDG platform handler.
pub struct LinuxHandler;

/// File name of the desktop entry this application installs.
pub const DESKTOP_ID: &'static str = "rust-browser-handler.desktop";

/// Placeholder for the executable path in the desktop entry template.
pub const EXECUTABLE_MARKER: &'static str = "@EXECUTABLE@";

/// The desktop entry, with `@EXECUTABLE@` where the executable path goes.
pub const DESKTOP_ENTRY_TEMPLATE: &'static str = "[Desktop Entry]
Version=1.0
Type=Application
Name=Rust Browser Handler
GenericName=Web Browser Chooser
Comment=Open links in the browser chosen by your rules
Exec=@EXECUTABLE@ %u
Terminal=false
NoDisplay=false
StartupNotify=false
Categories=Network;WebBrowser;
MimeType=x-scheme-handler/http;x-scheme-handler/https;
";

/// Renders the desktop entry for the executable at `exe_path`: every
/// `@EXECUTABLE@` of the template replaced by the path, unquoted.
pub fn render_desktop_entry(exe_path: &str) -> (r: String)
    ensures
        r@ == replace_seq(DESKTOP_ENTRY_TEMPLATE@, EXECUTABLE_MARKER@, exe_path@),
{
    let template = chars_of(DESKTOP_ENTRY_TEMPLATE);
    let marker = chars_of(EXECUTABLE_MARKER);
    let exe = chars_of(exe_path);
    proof {
        reveal_strlit("@EXECUTABLE@");
    }
    let out = replace_chars(&template, &marker, &exe);
    string_of(&out)
}

// ---------------------------------------------------------------------------
// mimeapps.list clean-up
// ---------------------------------------------------------------------------

/// A section header line such as `[Default Applications]`.
pub open spec fn is_header_line(line: Seq<char>) -> bool {
    let t = trim_seq(line);
    t.len() > 2 && t[0] == '[' && t.last() == ']'
}

/// The name between the brackets of a header line.
pub open spec fn header_name(line: Seq<char>) -> Seq<char> {
    let t = trim_seq(line);
    t.subrange(1, t.len() - 1)
}

/// The section in force after the lines `ls`.
pub open spec fn section_after(ls: Seq<Seq<char>>) -> Option<Seq<char>>
    decreases ls.len(),
{
    if ls.len() == 0 {
        None
    } else if is_header_line(ls.last()) {
        Some(header_name(ls.last()))
    } else {
        section_after(ls.drop_last())
    }
}

/// Sections whose emptied assignments are dropped.
pub open spec fn is_default_section(section: Option<Seq<char>>) -> bool {
    section == Some("Default Applications"@) || section == Some("DefaultApplications"@)
}

/// The entries of a `;`-separated list that stay: non-empty and not `id`.
pub open spec fn kept_entries(pieces: Seq<Seq<char>>, id: Seq<char>) -> Seq<Seq<char>>
    decreases pieces.len(),
{
    if pieces.len() == 0 {
        Seq::<Seq<char>>::empty()
    } else {
        let k = kept_entries(pieces.drop_last(), id);
        if pieces.last().len() > 0 && pieces.last() != id {
            k.push(pieces.last())
        } else {
            k
        }
    }
}

/// Each entry followed by `c`.
pub open spec fn terminated(entries: Seq<Seq<char>>, c: char) -> Seq<char>
    decreases entries.len(),
{
    if entries.len() == 0 {
        Seq::<char>::empty()
    } else {
        terminated(entries.drop_last(), c) + entries.last().push(c)
    }
}

/// What becomes of one line: headers and lines without `=` stay; an
/// assignment keeps its key and the entries other than `id`, each followed
/// by `;`; an assignment left without entries is dropped in a default
/// section and kept as `key=` elsewhere (`None` means dropped).
pub open spec fn purge_line(line: Seq<char>, in_default: bool, id: Seq<char>) -> Option<
    Seq<char>,
> {
    if is_header_line(line) {
        Some(line)
    } else {
        match first_index_of(line, '=') {
            Some(k) => {
                let entries = kept_entries(split_seq(line.skip(k + 1), ';'), id);
                if entries.len() == 0 && in_default {
                    None
                } else {
                    Some(line.take(k).push('=') + terminated(entries, ';'))
                }
            },
            None => Some(line),
        }
    }
}

/// The lines that remain of `ls`, each purged of `id`.
pub open spec fn purged_lines(ls: Seq<Seq<char>>, id: Seq<char>) -> Seq<Seq<char>>
    decreases ls.len(),
{
    if ls.len() == 0 {
        Seq::<Seq<char>>::empty()
    } else {
        let prev = purged_lines(ls.drop_last(), id);
        match purge_line(
            ls.last(),
            is_default_section(section_after(ls.drop_last())),
            id,
        ) {
            Some(l) => prev.push(l),
            None => prev,
        }
    }
}

/// The purged file: the remaining lines joined by `\n`, with a final `\n`
/// when the input had one.
pub open spec fn purge_spec(contents: Seq<char>, id: Seq<char>) -> Seq<char> {
    let out = join_seq(purged_lines(lines_seq(contents), id), seq!['\n']);
    if contents.len() > 0 && contents.last() == '\n' {
        out.push('\n')
    } else {
        out
    }
}

/// The header name of `line`, if it is a header.
fn header_name_chars(line: &[char]) -> (r: Option<Vec<char>>)
    ensures
        match r {
            Some(n) => is_header_line(line@) && n@ == header_name(line@),
            None => !is_header_line(line@),
        },
{
    let t = trim_chars(line);
    if t.len() > 2 && t[0] == '[' && t[t.len() - 1] == ']' {
        Some(sub_chars(&t, 1, t.len() - 1))
    } else {
        None
    }
}

/// The entries of `pieces` other than empty ones and `id`.
fn kept_entries_chars(pieces: &Vec<Vec<char>>, id: &[char]) -> (r: Vec<Vec<char>>)
    ensures
        views(r@) == kept_entries(views(pieces@), id@),
{
    let ghost ps = views(pieces@);
    let mut r: Vec<Vec<char>> = Vec::new();
    let mut i: usize = 0;
    while i < pieces.len()
        invariant
            i <= pieces.len(),
            ps == views(pieces@),
            views(r@) == kept_entries(ps.take(i as int), id@),
        decreases pieces.len() - i,
    {
        assert(ps.take(i + 1).drop_last() =~= ps.take(i as int));
        assert(ps.take(i + 1).last() == pieces@[i as int]@);
        let p = &pieces[i];
        let is_id = crate::text::same_chars(p, id);
        if p.len() > 0 && !is_id {
            let ghost before = r@;
            r.push(copy_chars(p));
            assert(views(r@) =~= views(before).push(p@));
        }
        i += 1;
    }
    assert(ps.take(pieces.len() as int) =~= ps);
    r
}

/// Appends each entry followed by `c`.
fn push_terminated(out: &mut Vec<char>, entries: &Vec<Vec<char>>, c: char)
    ensures
        final(out)@ == old(out)@ + terminated(views(entries@), c),
{
    let ghost start = out@;
    let ghost es = views(entries@);
    let mut i: usize = 0;
    while i < entries.len()
        invariant
            i <= entries.len(),
            es == views(entries@),
            out@ == start + terminated(es.take(i as int), c),
        decreases entries.len() - i,
    {
        assert(es.take(i + 1).drop_last() =~= es.take(i as int));
        append_chars(out, &entries[i]);
        out.push(c);
        assert(out@ =~= start + terminated(es.take(i + 1), c));
        i += 1;
    }
    assert(es.take(entries.len() as int) =~= es);
}

/// Purges one non-header line.
fn purge_plain_line(line: &[char], in_default: bool, id: &[char]) -> (r: Option<Vec<char>>)
    requires
        !is_header_line(line@),
    ensures
        match r {
            Some(l) => purge_line(line@, in_default, id@) == Some(l@),
            None => purge_line(line@, in_default, id@) is None,
        },
{
    match first_index_chars(line, '=') {
        Some(k) => {
            let value = sub_chars(line, k + 1, line.len());
            assert(value@ =~= line@.skip(k + 1));
            let pieces = split_chars(&value, ';');
            let entries = kept_entries_chars(&pieces, id);
            if entries.len() == 0 && in_default {
                None
            } else {
                let mut out = sub_chars(line, 0, k);
                assert(out@ =~= line@.take(k as int));
                out.push('=');
                push_terminated(&mut out, &entries, ';');
                Some(out)
            }
        },
        None => Some(copy_chars(line)),
    }
}

/// Whether a section name is one of the default-application sections.
fn is_default_section_name(section: &Option<Vec<char>>) -> (r: bool)
    ensures
        r == is_default_section(
            match section {
                Some(s) => Some(s@),
                None => None,
            },
        ),
{
    match section {
        Some(s) => chars_eq_str(s, "Default Applications") || chars_eq_str(
            s,
            "DefaultApplications",
        ),
        None => false,
    }
}

/// Removes `desktop_id` from every association list of a `mimeapps.list`
/// text, as `purge_spec` describes.
pub fn purge_desktop_entry_from_mimeapps(contents: &str, desktop_id: &str) -> (r: String)
    ensures
        r@ == purge_spec(contents@, desktop_id@),
{
    let cs = chars_of(contents);
    let id = chars_of(desktop_id);
    let lines = lines_chars(&cs);
    let ghost ls = views(lines@);
    let mut out: Vec<Vec<char>> = Vec::new();
    let mut section: Option<Vec<char>> = None;
    let mut i: usize = 0;
    while i < lines.len()
        invariant
            i <= lines.len(),
            ls == views(lines@),
            views(out@) == purged_lines(ls.take(i as int), id@),
            match section {
                Some(s) => section_after(ls.take(i as int)) == Some(s@),
                None => section_after(ls.take(i as int)) is None,
            },
        decreases lines.len() - i,
    {
        assert(ls.take(i + 1).drop_last() =~= ls.take(i as int));
        assert(ls.take(i + 1).last() == lines@[i as int]@);
        let line = &lines[i];
        let ghost before = out@;
        match header_name_chars(line) {
            Some(name) => {
                out.push(copy_chars(line));
                assert(views(out@) =~= views(before).push(line@));
                section = Some(name);
            },
            None => {
                let in_default = is_default_section_name(&section);
                match purge_plain_line(line, in_default, &id) {
                    Some(l) => {
                        out.push(l);
                        assert(views(out@) =~= views(before).push(l@));
                    },
                    None => {},
                }
            },
        }
        i += 1;
    }
    assert(ls.take(lines.len() as int) =~= ls);
    let newline: Vec<char> = vec!['\n'];
    assert(newline@ =~= seq!['\n']);
    let mut joined = join_chars(&out, &newline);
    if cs.len() > 0 && cs[cs.len() - 1] == '\n' {
        joined.push('\n');
    }
    string_of(&joined)
}

/// The purged text when it differs from `contents` (the file then needs
/// rewriting), `None` when nothing changed.
pub fn purge_if_changed(contents: &str, desktop_id: &str) -> (r: Option<String>)
    ensures
        match r {
            Some(u) => u@ == purge_spec(contents@, desktop_id@) && u@ != contents@,
            None => purge_spec(contents@, desktop_id@) == contents@,
        },
{
    let updated = purge_desktop_entry_from_mimeapps(contents, desktop_id);
    let a = chars_of(updated.as_str());
    let b = chars_of(contents);
    if crate::text::same_chars(&a, &b) {
        None
    } else {
        Some(updated)
    }
}

/// Whether a system `mimeapps.list` text still mentions `desktop_id`.
pub fn references_desktop_id(content: &str, desktop_id: &str) -> (r: bool)
    ensures
        r == contains_seq(content@, desktop_id@),
{
    let c = chars_of(content);
    let d = chars_of(desktop_id);
    contains_chars(&c, &d)
}

// ---------------------------------------------------------------------------
// What the desktop tools report
// ---------------------------------------------------------------------------

/// `text` trimmed, unless nothing is left.
pub open spec fn nonempty_trimmed_spec(text: Seq<char>) -> Option<Seq<char>> {
    if trim_seq(text).len() == 0 {
        None
    } else {
        Some(trim_seq(text))
    }
}

/// `text` trimmed, `None` when nothing is left (used for a tool's standard
/// error and for what `which` prints).
pub fn nonempty_trimmed(text: &str) -> (r: Option<String>)
    ensures
        opt_view(r) == nonempty_trimmed_spec(text@),
{
    let cs = chars_of(text);
    let t = trim_chars(&cs);
    if t.len() == 0 {
        None
    } else {
        Some(string_of(&t))
    }
}

/// Bytes a tool wrote, read as text (invalid UTF-8 replaced).
pub open spec fn output_text(bytes: Seq<u8>) -> Seq<char> {
    if valid_utf8(bytes) {
        decode_utf8(bytes)
    } else {
        utf8_lossy(bytes)
    }
}

/// The trimmed standard error of a tool, `None` when it is blank.
pub fn extract_stderr(stderr: &[u8]) -> (r: Option<String>)
    ensures
        opt_view(r) == nonempty_trimmed_spec(output_text(stderr@)),
{
    let text = decode_utf8_lossy(stderr);
    nonempty_trimmed(text.as_str())
}

/// Kinds of I/O failure that the messages tell apart.
#[derive(PartialEq, Eq, Structural, Debug, Clone, Copy)]
pub enum IoErrorKind {
    NotFound,
    PermissionDenied,
    Other,
}

/// An I/O failure to run a tool: its kind, the kind's name and the error's
/// message.
pub struct IoFailure {
    pub kind: IoErrorKind,
    pub kind_name: String,
    pub message: String,
}

/// The message for a failure to run `xdg-mime`.
pub open spec fn io_error_text(prefix: Seq<char>, err: IoFailure) -> Seq<char> {
    match err.kind {
        IoErrorKind::NotFound => prefix
            + ": command not found (is `xdg-mime` installed and on PATH?)"@,
        IoErrorKind::PermissionDenied => prefix + ": permission denied when executing `xdg-mime`"@,
        IoErrorKind::Other => prefix + ": I/O error ("@ + err.kind_name@ + "): "@ + err.message@,
    }
}

/// Formats a failure to run `xdg-mime`, saying what to check for the
/// common kinds.
pub fn format_xdg_mime_io_error(prefix: &str, err: &IoFailure) -> (r: String)
    ensures
        r@ == io_error_text(prefix@, *err),
{
    let mut v = chars_of(prefix);
    match err.kind {
        IoErrorKind::NotFound => {
            push_str_chars(&mut v, ": command not found (is `xdg-mime` installed and on PATH?)");
        },
        IoErrorKind::PermissionDenied => {
            push_str_chars(&mut v, ": permission denied when executing `xdg-mime`");
        },
        IoErrorKind::Other => {
            push_str_chars(&mut v, ": I/O error (");
            push_str_chars(&mut v, err.kind_name.as_str());
            push_str_chars(&mut v, "): ");
            push_str_chars(&mut v, err.message.as_str());
        },
    }
    string_of(&v)
}

/// How running a tool went: it finished (successfully or not, with its
/// exit status as text and its standard error), or it could not be run.
pub enum ToolRun {
    Finished { success: bool, status: String, stderr: Vec<u8> },
    NotRun(IoFailure),
}

/// The tool ran and reported success.
pub open spec fn succeeded(run: ToolRun) -> bool {
    run matches ToolRun::Finished { success, .. } && success
}

/// `label` and the trimmed standard error, or nothing when it is blank.
pub open spec fn stderr_note(label: Seq<char>, stderr: Seq<u8>) -> Seq<char> {
    match nonempty_trimmed_spec(output_text(stderr)) {
        Some(t) => label + t,
        None => Seq::<char>::empty(),
    }
}

/// Prefix of the message when the HTTP association could not be set.
pub open spec fn http_prefix() -> Seq<char> {
    "Failed to run xdg-mime for HTTP association"@
}

/// Prefix of the message when the HTTPS association could not be set.
pub open spec fn https_prefix() -> Seq<char> {
    "Failed to run xdg-mime for HTTPS association"@
}

/// The error of registering with `xdg-mime`, given how the HTTP and HTTPS
/// association runs went; `None` when both succeeded.
pub open spec fn mime_failure_spec(http: ToolRun, https: ToolRun) -> Option<Seq<char>> {
    if succeeded(http) && succeeded(https) {
        None
    } else {
        match (http, https) {
            (ToolRun::NotRun(e1), ToolRun::NotRun(e2)) => Some(
                io_error_text(http_prefix(), e1) + "; "@ + io_error_text(https_prefix(), e2),
            ),
            (ToolRun::NotRun(e1), _) => Some(io_error_text(http_prefix(), e1)),
            (_, ToolRun::NotRun(e2)) => Some(io_error_text(https_prefix(), e2)),
            (
                ToolRun::Finished { status: s1, stderr: b1, .. },
                ToolRun::Finished { status: s2, stderr: b2, .. },
            ) => Some(
                "Failed to set MIME associations (http status: "@ + s1@ + ", https status: "@
                    + s2@ + ")"@ + stderr_note(", http stderr: "@, b1@) + stderr_note(
                    ", https stderr: "@,
                    b2@,
                ) + ". Ensure xdg-mime is available."@,
            ),
        }
    }
}

/// Appends `label` and the trimmed standard error when it is not blank.
fn push_stderr_note(v: &mut Vec<char>, label: &str, stderr: &[u8])
    ensures
        final(v)@ == old(v)@ + stderr_note(label@, stderr@),
{
    match extract_stderr(stderr) {
        Some(t) => {
            push_str_chars(v, label);
            push_str_chars(v, t.as_str());
            assert(final(v)@ =~= old(v)@ + (label@ + t@)) by {
                assert(v@ =~= old(v)@ + label@ + t@);
            };
        },
        None => {
            assert(v@ =~= old(v)@ + Seq::<char>::empty());
        },
    }
}

/// Describes why registering the HTTP and HTTPS associations with
/// `xdg-mime` failed; `None` when both runs succeeded.
pub fn xdg_mime_failure(http: &ToolRun, https: &ToolRun) -> (r: Option<String>)
    ensures
        opt_view(r) == mime_failure_spec(*http, *https),
{
    let http_ok = match http {
        ToolRun::Finished { success, .. } => *success,
        ToolRun::NotRun(_) => false,
    };
    let https_ok = match https {
        ToolRun::Finished { success, .. } => *success,
        ToolRun::NotRun(_) => false,
    };
    if http_ok && https_ok {
        return None;
    }
    match (http, https) {
        (ToolRun::NotRun(e1), ToolRun::NotRun(e2)) => {
            let a = format_xdg_mime_io_error("Failed to run xdg-mime for HTTP association", e1);
            let b = format_xdg_mime_io_error("Failed to run xdg-mime for HTTPS association", e2);
            let mut v = chars_of(a.as_str());
            push_str_chars(&mut v, "; ");
            push_str_chars(&mut v, b.as_str());
            Some(string_of(&v))
        },
        (ToolRun::NotRun(e1), _) => Some(
            format_xdg_mime_io_error("Failed to run xdg-mime for HTTP association", e1),
        ),
        (_, ToolRun::NotRun(e2)) => Some(
            format_xdg_mime_io_error("Failed to run xdg-mime for HTTPS association", e2),
        ),
        (
            ToolRun::Finished { status: s1, stderr: b1, .. },
            ToolRun::Finished { status: s2, stderr: b2, .. },
        ) => {
            let mut v = chars_of("Failed to set MIME associations (http status: ");
            push_str_chars(&mut v, s1.as_str());
            push_str_chars(&mut v, ", https status: ");
            push_str_chars(&mut v, s2.as_str());
            push_str_chars(&mut v, ")");
            push_stderr_note(&mut v, ", http stderr: ", b1.as_slice());
            push_stderr_note(&mut v, ", https stderr: ", b2.as_slice());
            push_str_chars(&mut v, ". Ensure xdg-mime is available.");
            Some(string_of(&v))
        },
    }
}

/// Whether `xdg-settings get default-web-browser` printed this
/// application's desktop entry (`None` when its output was unusable).
pub fn settings_report_this_handler(stdout: Option<&str>) -> (r: bool)
    ensures
        r == (stdout matches Some(s) && trim_seq(s@) == DESKTOP_ID@),
{
    match stdout {
        Some(s) => {
            let cs = chars_of(s);
            let t = trim_chars(&cs);
            chars_eq_str(&t, DESKTOP_ID)
        },
        None => false,
    }
}

/// What registration reports after the MIME associations were set: an
/// optional warning for standard error and the lines for standard output.
pub struct SettingsReport {
    pub warning: Option<String>,
    pub lines: Vec<String>,
}

/// The standard-output lines when the default browser setting is confirmed.
pub open spec fn confirmed_lines() -> Seq<Seq<char>> {
    seq![
        "Successfully registered as default browser using XDG standards."@,
        "The application is now set as the default handler for HTTP and HTTPS URLs."@,
    ]
}

/// The warning and lines reported, given whether `xdg-settings get`
/// already names this handler and how `xdg-settings set` went.
pub open spec fn settings_report_spec(already_default: bool, set: ToolRun) -> (Option<Seq<char>>, Seq<Seq<char>>) {
    if already_default {
        (
            match set {
                ToolRun::Finished { success, status, .. } => if success {
                    None
                } else {
                    Some(
                        "warning: xdg-settings set default-web-browser exited with "@ + status@
                            + " but xdg-settings get already reports rust-browser-handler.desktop. Some desktop environments, mail fail set operations even when the setting is correct. The MIME associations were still applied."@,
                    )
                },
                ToolRun::NotRun(e) => Some(
                    "warning: xdg-settings set default-web-browser could not be executed ("@
                        + e.message@
                        + "), but xdg-settings get already reports rust-browser-handler.desktop. Some desktop environments, including Pop!_OS COSMIC, do not use set as a reliable signal. The MIME associations were still applied."@,
                ),
            },
            confirmed_lines(),
        )
    } else {
        match set {
            ToolRun::Finished { success, status, stderr } => if success {
                (None, confirmed_lines())
            } else {
                (
                    Some(
                        "warning: xdg-settings set default-web-browser failed (status: "@
                            + status@ + stderr_note(", stderr: "@, stderr@)
                            + "). The MIME associations were still applied."@,
                    ),
                    seq![
                        "Successfully registered default HTTP and HTTPS associations using XDG MIME data."@,
                        "Note: xdg-settings did not report the desktop entry back, so the MIME association is the authoritative setting here."@,
                    ],
                )
            },
            ToolRun::NotRun(e) => (
                Some(
                    "warning: xdg-settings is unavailable or could not be executed ("@ + e.message@
                        + "). The MIME associations were still applied."@,
                ),
                seq![
                    "Successfully registered default HTTP and HTTPS associations using XDG MIME data."@,
                    "Note: xdg-settings was skipped, so the MIME association is the authoritative setting here."@,
                ],
            ),
        }
    }
}

/// Two lines of text.
fn two_lines(a: &str, b: &str) -> (r: Vec<String>)
    ensures
        string_views(r@) == seq![a@, b@],
{
    let mut r: Vec<String> = Vec::new();
    r.push(a.to_string());
    r.push(b.to_string());
    assert(string_views(r@) =~= seq![a@, b@]);
    r
}

/// A warning made of `head`, `middle` and `tail`.
fn warning3(head: &str, middle: &str, tail: &str) -> (r: String)
    ensures
        r@ == head@ + middle@ + tail@,
{
    let mut v = chars_of(head);
    push_str_chars(&mut v, middle);
    push_str_chars(&mut v, tail);
    string_of(&v)
}

/// What to report once the MIME associations are set, from whether
/// `xdg-settings get` names this handler and how `xdg-settings set` went.
pub fn xdg_settings_report(already_default: bool, set: &ToolRun) -> (r: SettingsReport)
    ensures
        (opt_view(r.warning), string_views(r.lines@)) == settings_report_spec(already_default, *set),
{
    if already_default {
        let warning = match set {
            ToolRun::Finished { success, status, .. } => {
                if *success {
                    None
                } else {
                    Some(
                        warning3(
                            "warning: xdg-settings set default-web-browser exited with ",
                            status.as_str(),
                            " but xdg-settings get already reports rust-browser-handler.desktop. Some desktop environments, mail fail set operations even when the setting is correct. The MIME associations were still applied.",
                        ),
                    )
                }
            },
            ToolRun::NotRun(e) => Some(
                warning3(
                    "warning: xdg-settings set default-web-browser could not be executed (",
                    e.message.as_str(),
                    "), but xdg-settings get already reports rust-browser-handler.desktop. Some desktop environments, including Pop!_OS COSMIC, do not use set as a reliable signal. The MIME associations were still applied.",
                ),
            ),
        };
        let lines = two_lines(
            "Successfully registered as default browser using XDG standards.",
            "The application is now set as the default handler for HTTP and HTTPS URLs.",
        );
        SettingsReport { warning, lines }
    } else {
        match set {
            ToolRun::Finished { success, status, stderr } => {
                if *success {
                    let lines = two_lines(
                        "Successfully registered as default browser using XDG standards.",
                        "The application is now set as the default handler for HTTP and HTTPS URLs.",
                    );
                    SettingsReport { warning: None, lines }
                } else {
                    let mut v = chars_of(
                        "warning: xdg-settings set default-web-browser failed (status: ",
                    );
                    push_str_chars(&mut v, status.as_str());
                    push_stderr_note(&mut v, ", stderr: ", stderr.as_slice());
                    push_str_chars(&mut v, "). The MIME associations were still applied.");
                    let lines = two_lines(
                        "Successfully registered default HTTP and HTTPS associations using XDG MIME data.",
                        "Note: xdg-settings did not report the desktop entry back, so the MIME association is the authoritative setting here.",
                    );
                    SettingsReport { warning: Some(string_of(&v)), lines }
                }
            },
            ToolRun::NotRun(e) => {
                let warning = warning3(
                    "warning: xdg-settings is unavailable or could not be executed (",
                    e.message.as_str(),
                    "). The MIME associations were still applied.",
                );
                let lines = two_lines(
                    "Successfully registered default HTTP and HTTPS associations using XDG MIME data.",
                    "Note: xdg-settings was skipped, so the MIME association is the authoritative setting here.",
                );
                SettingsReport { warning: Some(warning), lines }
            },
        }
    }
}

/// Whether the desktop reports this application as the default handler.
#[derive(PartialEq, Eq, Structural, Debug, Clone, Copy)]
pub enum DefaultHandlerStatus {
    /// Both HTTP and HTTPS name this application.
    Registered,
    /// HTTP or HTTPS names another application.
    NotRegistered,
    /// A query failed and none named another application: the answer is
    /// whether the desktop entry exists.
    CheckDesktopFile,
}

/// The status from the `xdg-mime query default` outputs for HTTP and HTTPS
/// (`None` for a query that failed).
pub open spec fn default_status_spec(http: Option<Seq<char>>, https: Option<Seq<char>>) -> DefaultHandlerStatus {
    let h = match http {
        Some(t) => Some(trim_seq(t)),
        None => None,
    };
    let s = match https {
        Some(t) => Some(trim_seq(t)),
        None => None,
    };
    if (h matches Some(v) && v != DESKTOP_ID@) || (s matches Some(v) && v != DESKTOP_ID@) {
        DefaultHandlerStatus::NotRegistered
    } else if h == Some(DESKTOP_ID@) && s == Some(DESKTOP_ID@) {
        DefaultHandlerStatus::Registered
    } else {
        DefaultHandlerStatus::CheckDesktopFile
    }
}

/// Whether a query output names this application, after trimming.
fn names_this_handler(out: &str) -> (r: bool)
    ensures
        r == (trim_seq(out@) == DESKTOP_ID@),
{
    let cs = chars_of(out);
    let t = trim_chars(&cs);
    chars_eq_str(&t, DESKTOP_ID)
}

/// Decides whether this application is the default handler from the
/// `xdg-mime query default` outputs for HTTP and HTTPS.
pub fn default_handler_status(http: Option<&str>, https: Option<&str>) -> (r: DefaultHandlerStatus)
    ensures
        r == default_status_spec(
            match http {
                Some(t) => Some(t@),
                None => None,
            },
            match https {
                Some(t) => Some(t@),
                None => None,
            },
        ),
{
    let http_is_this = match http {
        Some(t) => Some(names_this_handler(t)),
        None => None,
    };
    let https_is_this = match https {
        Some(t) => Some(names_this_handler(t)),
        None => None,
    };
    if http_is_this == Some(false) || https_is_this == Some(false) {
        DefaultHandlerStatus::NotRegistered
    } else if http_is_this == Some(true) && https_is_this == Some(true) {
        DefaultHandlerStatus::Registered
    } else {
        DefaultHandlerStatus::CheckDesktopFile
    }
}

// ---------------------------------------------------------------------------
// Where browsers are looked for
// ---------------------------------------------------------------------------

/// Browser commands looked up with `which`.
pub open spec fn browser_commands_spec() -> Seq<Seq<char>> {
    seq![
        "google-chrome"@,
        "google-chrome-stable"@,
        "chromium"@,
        "chromium-browser"@,
        "firefox"@,
        "firefox-esr"@,
        "librewolf"@,
        "brave-browser"@,
        "opera"@,
        "vivaldi"@,
        "thorium-browser"@,
        "floorp"@,
    ]
}

/// Usual installation paths of browsers.
pub open spec fn common_browser_paths_spec() -> Seq<Seq<char>> {
    seq![
        "/usr/bin/google-chrome"@,
        "/usr/bin/google-chrome-stable"@,
        "/usr/bin/chromium"@,
        "/usr/bin/chromium-browser"@,
        "/usr/bin/firefox"@,
        "/usr/bin/firefox-esr"@,
        "/usr/bin/librewolf"@,
        "/usr/bin/brave-browser"@,
        "/usr/bin/opera"@,
        "/usr/bin/vivaldi"@,
        "/usr/bin/thorium-browser"@,
        "/usr/bin/floorp"@,
        "/opt/google/chrome/chrome"@,
        "/opt/brave.com/brave/brave"@,
        "/opt/opera/opera"@,
        "/opt/vivaldi/vivaldi"@,
    ]
}

/// Pushes a string literal.
fn push_text(v: &mut Vec<String>, s: &str)
    ensures
        string_views(final(v)@) == string_views(old(v)@).push(s@),
{
    let ghost before = v@;
    v.push(s.to_string());
    assert(string_views(v@) =~= string_views(before).push(s@));
}

/// Browser commands looked up with `which`.
pub fn browser_commands() -> (r: Vec<String>)
    ensures
        string_views(r@) == browser_commands_spec(),
{
    let mut r: Vec<String> = Vec::new();
    push_text(&mut r, "google-chrome");
    push_text(&mut r, "google-chrome-stable");
    push_text(&mut r, "chromium");
    push_text(&mut r, "chromium-browser");
    push_text(&mut r, "firefox");
    push_text(&mut r, "firefox-esr");
    push_text(&mut r, "librewolf");
    push_text(&mut r, "brave-browser");
    push_text(&mut r, "opera");
    push_text(&mut r, "vivaldi");
    push_text(&mut r, "thorium-browser");
    push_text(&mut r, "floorp");
    assert(string_views(r@) =~= browser_commands_spec());
    r
}

/// Usual installation paths of browsers.
pub fn common_browser_paths() -> (r: Vec<String>)
    ensures
        string_views(r@) == common_browser_paths_spec(),
{
    let mut r: Vec<String> = Vec::new();
    push_text(&mut r, "/usr/bin/google-chrome");
    push_text(&mut r, "/usr/bin/google-chrome-stable");
    push_text(&mut r, "/usr/bin/chromium");
    push_text(&mut r, "/usr/bin/chromium-browser");
    push_text(&mut r, "/usr/bin/firefox");
    push_text(&mut r, "/usr/bin/firefox-esr");
    push_text(&mut r, "/usr/bin/librewolf");
    push_text(&mut r, "/usr/bin/brave-browser");
    push_text(&mut r, "/usr/bin/opera");
    push_text(&mut r, "/usr/bin/vivaldi");
    push_text(&mut r, "/usr/bin/thorium-browser");
    push_text(&mut r, "/usr/bin/floorp");
    push_text(&mut r, "/opt/google/chrome/chrome");
    push_text(&mut r, "/opt/brave.com/brave/brave");
    push_text(&mut r, "/opt/opera/opera");
    push_text(&mut r, "/opt/vivaldi/vivaldi");
    assert(string_views(r@) =~= common_browser_paths_spec());
    r
}

/// The first of `ls` that starts with `prefix`.
pub open spec fn first_line_starting(ls: Seq<Seq<char>>, prefix: Seq<char>) -> Option<Seq<char>>
    decreases ls.len(),
{
    if ls.len() == 0 {
        None
    } else if starts_with_seq(ls[0], prefix) {
        Some(ls[0])
    } else {
        first_line_starting(ls.drop_first(), prefix)
    }
}

/// The `Exec=` line of an installed desktop entry, shown by the diagnostics.
pub fn desktop_exec_line(content: &str) -> (r: Option<String>)
    ensures
        opt_view(r) == first_line_starting(lines_seq(content@), "Exec="@),
{
    let cs = chars_of(content);
    let lines = lines_chars(&cs);
    let prefix = chars_of("Exec=");
    let ghost ls = views(lines@);
    let mut i: usize = 0;
    assert(ls.skip(0) =~= ls);
    while i < lines.len()
        invariant
            i <= lines.len(),
            ls == views(lines@),
            ls == lines_seq(content@),
            prefix@ == "Exec="@,
            first_line_starting(ls, "Exec="@) == first_line_starting(ls.skip(i as int), "Exec="@),
        decreases lines.len() - i,
    {
        assert(ls.skip(i as int).drop_first() =~= ls.skip(i + 1));
        assert(ls.skip(i as int)[0] == lines@[i as int]@);
        if occurs_at_chars(&lines[i], &prefix, 0) {
            return Some(string_of(&lines[i]));
        }
        i += 1;
    }
    assert(ls.skip(lines.len() as int) =~= Seq::<Seq<char>>::empty());
    None
}

} // verus!

//! Windows integration data: registry command strings, browser executables
//! and the places browsers are usually installed.
use crate::browser_discovery::{
    lookup_pairs, lookup_seq, pair_views, windows_file_name, windows_file_name_chars,
};
use crate::text::{
    ascii_lower_chars, ascii_lower_seq, chars_of, lemma_first_index_after, first_index_chars, first_index_of, opt_view, push_str_chars,
    string_of, string_views, sub_chars, trim_chars, trim_end_seq, trim_seq, trim_start_seq,
    words_chars, words_seq,
};
use vstd::prelude::*;

verus! {

broadcast use vstd::string::group_string_axioms;

/// The registry platform handler.
pub struct WindowsHandler;

/// Programmatic identifier under which the handler registers.
pub const PROG_ID: &'static str = "rust-browser-handler";

/// Value name used in `RegisteredApplications`.
pub const CANONICAL_NAME: &'static str = "rust_browser_handler.exe";

// ---------------------------------------------------------------------------
// Command strings
// ---------------------------------------------------------------------------

/// The executable named by a registry command string: the quoted part when
/// the trimmed command starts with a quote (nothing when the quote is not
/// closed), else its first white-space separated word.
pub open spec fn executable_from_command_spec(command: Seq<char>) -> Option<Seq<char>> {
    let t = trim_seq(command);
    if t.len() > 0 && t[0] == '"' {
        match first_index_of(t.drop_first(), '"') {
            Some(k) => Some(t.drop_first().take(k)),
            None => None,
        }
    } else {
        let w = words_seq(t);
        if w.len() > 0 {
            Some(w[0])
        } else {
            None
        }
    }
}

/// Helper function to extract executable path from a command string.
pub fn extract_executable_path_from_command(command: String) -> (r: Option<String>)
    ensures
        match r {
            Some(p) => executable_from_command_spec(command@) == Some(p@),
            None => executable_from_command_spec(command@) is None,
        },
{
    let cs = chars_of(command.as_str());
    let t = trim_chars(&cs);
    if t.len() > 0 && t[0] == '"' {
        let rest = sub_chars(&t, 1, t.len());
        assert(rest@ =~= t@.drop_first());
        match first_index_chars(&rest, '"') {
            Some(k) => {
                let p = sub_chars(&rest, 0, k);
                assert(p@ =~= rest@.take(k as int));
                Some(string_of(&p))
            },
            None => None,
        }
    } else {
        let w = words_chars(&t);
        if w.len() > 0 {
            Some(string_of(&w[0]))
        } else {
            None
        }
    }
}

/// The value of the `DefaultIcon` key: the executable's first icon.
pub open spec fn icon_resource_spec(exe: Seq<char>) -> Seq<char> {
    exe + seq![',', '0']
}

/// The `shell\open\command` value: the quoted executable and the quoted URL
/// argument.
pub open spec fn open_command_spec(exe: Seq<char>) -> Seq<char> {
    seq!['"'] + exe + seq!['"', ' ', '"', '%', '1', '"']
}

/// `"{exe},0"`.
pub fn icon_resource(exe: &str) -> (r: String)
    ensures
        r@ == icon_resource_spec(exe@),
{
    let mut v = chars_of(exe);
    v.push(',');
    v.push('0');
    string_of(&v)
}

/// `"\"{exe}\" \"%1\""`.
pub fn open_command(exe: &str) -> (r: String)
    ensures
        r@ == open_command_spec(exe@),
{
    let mut v: Vec<char> = Vec::new();
    v.push('"');
    push_str_chars(&mut v, exe);
    v.push('"');
    v.push(' ');
    v.push('"');
    v.push('%');
    v.push('1');
    v.push('"');
    assert(v@ =~= open_command_spec(exe@));
    string_of(&v)
}

/// The key under `HKEY_CURRENT_USER` that holds the handler's capabilities.
pub fn capabilities_key_path() -> (r: String)
    ensures
        r@ == "Software\\Clients\\StartMenuInternet\\"@ + PROG_ID@ + "\\Capabilities"@,
{
    let mut v = chars_of("Software\\Clients\\StartMenuInternet\\");
    push_str_chars(&mut v, PROG_ID);
    push_str_chars(&mut v, "\\Capabilities");
    string_of(&v)
}

/// Reading the executable back from the registered open command gives the
/// executable, for every path without a double quote.
pub proof fn lemma_open_command_round_trip(exe: Seq<char>)
    requires
        !exe.contains('"'),
    ensures
        executable_from_command_spec(open_command_spec(exe)) == Some(exe),
{
    let s = open_command_spec(exe);
    assert(trim_start_seq(s) == s);
    assert(trim_end_seq(s) == s);
    let rest = s.drop_first();
    let tail = seq!['"', ' ', '"', '%', '1', '"'];
    assert(rest =~= exe + tail);
    lemma_first_index_after(exe, tail, '"');
    assert((exe + tail).take(exe.len() as int) =~= exe);
}

// ---------------------------------------------------------------------------
// Browser executables
// ---------------------------------------------------------------------------

/// Executable file names of Windows browsers and their official names.
pub open spec fn windows_browser_entries() -> Seq<(Seq<char>, Seq<char>)> {
    seq![
        ("chrome.exe"@, "Google Chrome"@),
        ("firefox.exe"@, "Mozilla Firefox"@),
        ("msedge.exe"@, "Microsoft Edge"@),
        ("brave.exe"@, "Brave"@),
        ("opera.exe"@, "Opera"@),
        ("launcher.exe"@, "Opera"@),
        ("vivaldi.exe"@, "Vivaldi"@),
        ("thorium.exe"@, "Thorium"@),
        ("librewolf.exe"@, "LibreWolf"@),
        ("waterfox.exe"@, "Waterfox"@),
        ("floorp.exe"@, "Floorp"@),
    ]
}

/// Pushes one `(key, value)` pair of string literals.
fn push_pair(m: &mut Vec<(String, String)>, k: &str, v: &str)
    ensures
        pair_views(final(m)@) == pair_views(old(m)@).push((k@, v@)),
{
    let ghost before = m@;
    m.push((k.to_string(), v.to_string()));
    assert(pair_views(m@) =~= pair_views(before).push((k@, v@)));
}

/// Mapping from Windows executable file names to official browser names.
pub fn get_browser_map() -> (m: Vec<(String, String)>)
    ensures
        pair_views(m@) == windows_browser_entries(),
{
    let mut m: Vec<(String, String)> = Vec::new();
    push_pair(&mut m, "chrome.exe", "Google Chrome");
    push_pair(&mut m, "firefox.exe", "Mozilla Firefox");
    push_pair(&mut m, "msedge.exe", "Microsoft Edge");
    push_pair(&mut m, "brave.exe", "Brave");
    push_pair(&mut m, "opera.exe", "Opera");
    push_pair(&mut m, "launcher.exe", "Opera");
    push_pair(&mut m, "vivaldi.exe", "Vivaldi");
    push_pair(&mut m, "thorium.exe", "Thorium");
    push_pair(&mut m, "librewolf.exe", "LibreWolf");
    push_pair(&mut m, "waterfox.exe", "Waterfox");
    push_pair(&mut m, "floorp.exe", "Floorp");
    assert(pair_views(m@) =~= windows_browser_entries());
    m
}

/// The file name of the ASCII-lowercased path, read as a Windows path, is a
/// known browser executable.
pub open spec fn is_browser_executable_spec(path: Seq<char>) -> bool {
    match windows_file_name(ascii_lower_seq(path)) {
        Some(f) => lookup_seq(windows_browser_entries(), f) is Some,
        None => false,
    }
}

/// Helper function to check if a path likely points to a browser executable.
pub fn is_browser_executable(path: &str) -> (r: bool)
    ensures
        r == is_browser_executable_spec(path@),
{
    let cs = chars_of(path);
    let lower = ascii_lower_chars(&cs);
    match windows_file_name_chars(&lower) {
        Some(f) => {
            let map = get_browser_map();
            lookup_pairs(&map, &f).is_some()
        },
        None => false,
    }
}

/// The browser a registry command string points to, if it names a known
/// browser executable.
pub open spec fn registry_browser_candidate(command: Seq<char>) -> Option<Seq<char>> {
    match executable_from_command_spec(command) {
        Some(p) => if p.len() > 0 && is_browser_executable_spec(p) {
            Some(p)
        } else {
            None
        },
        None => None,
    }
}

/// The browser path named by a registry command string, when the command
/// names a non-empty path to a known browser executable; the caller
/// normalises it before adding it to the list.
pub fn registry_browser_path(command: String) -> (r: Option<String>)
    ensures
        opt_view(r) == registry_browser_candidate(command@),
{
    match extract_executable_path_from_command(command) {
        Some(p) => {
            if !p.as_str().is_empty() && is_browser_executable(p.as_str()) {
                Some(p)
            } else {
                None
            }
        },
        None => None,
    }
}

// ---------------------------------------------------------------------------
// Usual installation places
// ---------------------------------------------------------------------------

/// Browser executables relative to an installation prefix.
pub open spec fn relative_browser_paths_spec() -> Seq<Seq<char>> {
    seq![
        "Google/Chrome/Application/chrome.exe"@,
        "Mozilla Firefox/firefox.exe"@,
        "Microsoft/Edge/Application/msedge.exe"@,
        "BraveSoftware/Brave-Browser/Application/brave.exe"@,
        "Opera/launcher.exe"@,
        "Opera/opera.exe"@,
        "Vivaldi/Application/vivaldi.exe"@,
        "LibreWolf/librewolf.exe"@,
        "Waterfox/waterfox.exe"@,
        "Thorium/Application/thorium.exe"@,
        "Ablaze Floorp/floorp.exe"@,
    ]
}

/// Pushes a string literal.
fn push_text(v: &mut Vec<String>, s: &str)
    ensures
        string_views(final(v)@) == string_views(old(v)@).push(s@),
{
    let ghost before = v@;
    v.push(s.to_string());
    assert(string_views(v@) =~= string_views(before).push(s@));
}

/// Browser executables relative to an installation prefix.
pub fn relative_browser_paths() -> (r: Vec<String>)
    ensures
        string_views(r@) == relative_browser_paths_spec(),
{
    let mut r: Vec<String> = Vec::new();
    push_text(&mut r, "Google/Chrome/Application/chrome.exe");
    push_text(&mut r, "Mozilla Firefox/firefox.exe");
    push_text(&mut r, "Microsoft/Edge/Application/msedge.exe");
    push_text(&mut r, "BraveSoftware/Brave-Browser/Application/brave.exe");
    push_text(&mut r, "Opera/launcher.exe");
    push_text(&mut r, "Opera/opera.exe");
    push_text(&mut r, "Vivaldi/Application/vivaldi.exe");
    push_text(&mut r, "LibreWolf/librewolf.exe");
    push_text(&mut r, "Waterfox/waterfox.exe");
    push_text(&mut r, "Thorium/Application/thorium.exe");
    push_text(&mut r, "Ablaze Floorp/floorp.exe");
    assert(string_views(r@) =~= relative_browser_paths_spec());
    r
}

/// `(prefix, relative path)` for each non-empty prefix, in order, and each
/// relative browser path.
pub open spec fn browser_path_parts_spec(prefixes: Seq<Seq<char>>) -> Seq<(Seq<char>, Seq<char>)>
    decreases prefixes.len(),
{
    if prefixes.len() == 0 {
        Seq::<(Seq<char>, Seq<char>)>::empty()
    } else {
        let before = browser_path_parts_spec(prefixes.drop_last());
        let p = prefixes.last();
        if p.len() > 0 {
            before + relative_browser_paths_spec().map_values(|r: Seq<char>| (p, r))
        } else {
            before
        }
    }
}

/// The installation prefixes (program files, local application data) paired
/// with each relative browser path; empty prefixes are skipped.
pub fn common_browser_path_parts(prefixes: Vec<String>) -> (r: Vec<(String, String)>)
    ensures
        pair_views(r@) == browser_path_parts_spec(string_views(prefixes@)),
{
    let rels = relative_browser_paths();
    let ghost ps = string_views(prefixes@);
    let mut r: Vec<(String, String)> = Vec::new();
    let mut i: usize = 0;
    while i < prefixes.len()
        invariant
            i <= prefixes.len(),
            ps == string_views(prefixes@),
            string_views(rels@) == relative_browser_paths_spec(),
            pair_views(r@) == browser_path_parts_spec(ps.take(i as int)),
        decreases prefixes.len() - i,
    {
        assert(ps.take(i + 1).drop_last() =~= ps.take(i as int));
        assert(ps.take(i + 1).last() == prefixes@[i as int]@);
        if !prefixes[i].as_str().is_empty() {
            let ghost start = pair_views(r@);
            let ghost p = prefixes@[i as int]@;
            let mut j: usize = 0;
            while j < rels.len()
                invariant
                    j <= rels.len(),
                    i < prefixes.len(),
                    p == prefixes@[i as int]@,
                    string_views(rels@) == relative_browser_paths_spec(),
                    pair_views(r@) == start + relative_browser_paths_spec().take(
                        j as int,
                    ).map_values(|q: Seq<char>| (p, q)),
                decreases rels.len() - j,
            {
                let ghost before = r@;
                let a = prefixes[i].clone();
                let b = rels[j].clone();
                r.push((a, b));
                assert(pair_views(r@) =~= pair_views(before).push((p, rels@[j as int]@)));
                assert(relative_browser_paths_spec()[j as int] == rels@[j as int]@);
                assert(relative_browser_paths_spec().take(j + 1) =~= relative_browser_paths_spec().take(
                    j as int,
                ).push(rels@[j as int]@));
                assert(relative_browser_paths_spec().take(j + 1).map_values(
                    |q: Seq<char>| (p, q),
                ) =~= relative_browser_paths_spec().take(j as int).map_values(
                    |q: Seq<char>| (p, q),
                ).push((p, rels@[j as int]@)));
                assert(pair_views(r@) =~= start + relative_browser_paths_spec().take(
                    j + 1,
                ).map_values(|q: Seq<char>| (p, q)));
                j += 1;
            }
            assert(relative_browser_paths_spec().take(rels.len() as int)
                =~= relative_browser_paths_spec());
            assert(p.len() > 0);
        }
        i += 1;
    }
    assert(ps.take(prefixes.len() as int) =~= ps);
    r
}

/// Scoop installations under the user profile.
pub open spec fn scoop_browser_paths_spec(profile: Seq<char>) -> Seq<Seq<char>> {
    seq![
        profile + "/scoop/apps/googlechrome/current/chrome.exe"@,
        profile + "/scoop/apps/firefox/current/firefox.exe"@,
        profile + "/scoop/apps/brave/current/brave.exe"@,
        profile + "/scoop/apps/opera/current/opera.exe"@,
        profile + "/scoop/apps/vivaldi/current/vivaldi.exe"@,
    ]
}

/// Pushes `profile + suffix`.
fn push_joined(v: &mut Vec<String>, profile: &str, suffix: &str)
    ensures
        string_views(final(v)@) == string_views(old(v)@).push(profile@ + suffix@),
{
    let ghost before = v@;
    let mut cs = chars_of(profile);
    push_str_chars(&mut cs, suffix);
    v.push(string_of(&cs));
    assert(string_views(v@) =~= string_views(before).push(profile@ + suffix@));
}

/// Browser executables of Scoop installations under `user_profile`.
pub fn scoop_browser_paths(user_profile: &str) -> (r: Vec<String>)
    ensures
        string_views(r@) == scoop_browser_paths_spec(user_profile@),
{
    let mut r: Vec<String> = Vec::new();
    push_joined(&mut r, user_profile, "/scoop/apps/googlechrome/current/chrome.exe");
    push_joined(&mut r, user_profile, "/scoop/apps/firefox/current/firefox.exe");
    push_joined(&mut r, user_profile, "/scoop/apps/brave/current/brave.exe");
    push_joined(&mut r, user_profile, "/scoop/apps/opera/current/opera.exe");
    push_joined(&mut r, user_profile, "/scoop/apps/vivaldi/current/vivaldi.exe");
    assert(string_views(r@) =~= scoop_browser_paths_spec(user_profile@));
    r
}

/// Whether a `Software\Classes\http` default value names this handler.
pub fn is_handler_prog_id(value: &str) -> (r: bool)
    ensures
        r == (value@ == "rust-browser-handler"@),
{
    let v = chars_of(value);
    crate::text::chars_eq_str(&v, "rust-browser-handler")
}

} // verus!

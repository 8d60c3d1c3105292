//! Browser names, path normalisation and browser lists.
use crate::text::{
    ascii_lower_chars, ascii_lower_seq, chars_of, same_chars, split_chars, split_seq, string_of,
    opt_view, string_views, sub_chars, views,
};
use vstd::prelude::*;

verus! {

broadcast use vstd::string::group_string_axioms;

// ---------------------------------------------------------------------------
// File names of paths, as `Path::file_name` reads them on each platform
// ---------------------------------------------------------------------------

/// How paths are read: Unix paths are separated by `/` only; Windows paths
/// by `\` and `/`, after a drive, UNC or device prefix.
#[derive(PartialEq, Eq, Structural, Debug, Clone, Copy)]
pub enum PathStyle {
    Unix,
    Windows,
}

/// A piece that is a path component: not empty, and not a `.` that the
/// reading drops (only verbatim Windows paths keep `.` as a component).
pub open spec fn is_component(c: Seq<char>, dot_is_component: bool) -> bool {
    c.len() > 0 && (dot_is_component || c != seq!['.'])
}

/// The last component among `pieces`.
pub open spec fn last_component(pieces: Seq<Seq<char>>, dot_is_component: bool) -> Option<
    Seq<char>,
>
    decreases pieces.len(),
{
    if pieces.len() == 0 {
        None
    } else if is_component(pieces.last(), dot_is_component) {
        Some(pieces.last())
    } else {
        last_component(pieces.drop_last(), dot_is_component)
    }
}

/// The file name given by the pieces of a path: its last component, unless
/// that is `.` or `..` or there is none.
pub open spec fn file_name_of_pieces(pieces: Seq<Seq<char>>, dot_is_component: bool) -> Option<
    Seq<char>,
> {
    match last_component(pieces, dot_is_component) {
        Some(c) => if c == seq!['.', '.'] || c == seq!['.'] {
            None
        } else {
            Some(c)
        },
        None => None,
    }
}

/// The file name of a `/`-separated path (what `Path::file_name` returns on
/// Unix).
pub open spec fn file_name_seq(path: Seq<char>) -> Option<Seq<char>> {
    file_name_of_pieces(split_seq(path, '/'), false)
}

/// An ASCII letter.
pub open spec fn is_ascii_letter(c: char) -> bool {
    ('a' <= c <= 'z') || ('A' <= c <= 'Z')
}

/// A Windows separator: `\`, and `/` too outside verbatim paths.
pub open spec fn is_windows_separator(c: char, verbatim: bool) -> bool {
    c == '\\' || (!verbatim && c == '/')
}

/// Length of the component at the start of `s`: up to the first separator.
pub open spec fn component_length(s: Seq<char>, verbatim: bool) -> nat
    decreases s.len(),
{
    if s.len() == 0 || is_windows_separator(s[0], verbatim) {
        0
    } else {
        1 + component_length(s.drop_first(), verbatim)
    }
}

/// What follows the component at the start of `s` and its separator.
pub open spec fn after_component(s: Seq<char>, verbatim: bool) -> Seq<char> {
    let k = component_length(s, verbatim);
    if k < s.len() {
        s.skip(k + 1 as int)
    } else {
        Seq::<char>::empty()
    }
}

/// The character at `i` as the prefix is read: among the first eight
/// characters, `/` reads as `\`.
pub open spec fn prefix_char(path: Seq<char>, i: int) -> char {
    if i < 8 && path[i] == '/' {
        '\\'
    } else {
        path[i]
    }
}

/// `text` stands at `at` in `path`, read as a prefix is read.
pub open spec fn text_at(path: Seq<char>, at: int, text: Seq<char>) -> bool {
    &&& 0 <= at
    &&& at + text.len() <= path.len()
    &&& forall|k: int| 0 <= k < text.len() ==> prefix_char(path, at + k) == #[trigger] text[k]
}

/// Length of the prefix of a Windows path, and whether the path is verbatim:
/// `\\?\UNC\server\share`, `\\?\C:\`, `\\?\name` (verbatim, written with
/// `\` only), `\\.\device`, `\\server\share` (both parts non-empty) and
/// `C:`; no prefix otherwise.
pub open spec fn windows_prefix(path: Seq<char>) -> (nat, bool) {
    if text_at(path, 0, "\\\\"@) {
        if text_at(path, 2, "?\\"@) && path[0] != '/' && path[1] != '/' && path[2] != '/'
            && path[3] != '/' {
            if text_at(path, 4, "UNC\\"@) {
                let rest = path.skip(8);
                let server = component_length(rest, true);
                let share = component_length(after_component(rest, true), true);
                (
                    8 + server + if share > 0 {
                        share + 1
                    } else {
                        0
                    },
                    true,
                )
            } else if path.len() >= 7 && is_ascii_letter(path[4]) && path[5] == ':' && path[6]
                == '\\' {
                (6, true)
            } else {
                (4 + component_length(path.skip(4), true), true)
            }
        } else if text_at(path, 2, ".\\"@) {
            (4 + component_length(path.skip(4), false), false)
        } else {
            let rest = path.skip(2);
            let server = component_length(rest, false);
            let share = component_length(after_component(rest, false), false);
            if server > 0 && share > 0 {
                (2 + server + 1 + share, false)
            } else {
                (0, false)
            }
        }
    } else if path.len() >= 2 && is_ascii_letter(path[0]) && path[1] == ':' {
        (2, false)
    } else {
        (0, false)
    }
}

/// The file name of a Windows path (what `Path::file_name` returns on
/// Windows): the last component after the prefix.
pub open spec fn windows_file_name(path: Seq<char>) -> Option<Seq<char>> {
    let (n, verbatim) = windows_prefix(path);
    let rest = path.skip(n as int);
    if verbatim {
        file_name_of_pieces(split_seq(rest, '\\'), true)
    } else {
        file_name_of_pieces(split_seq(slashes_seq(rest), '/'), false)
    }
}

/// The file name of `path` read in `style`.
pub open spec fn file_name_in_style(path: Seq<char>, style: PathStyle) -> Option<Seq<char>> {
    match style {
        PathStyle::Unix => file_name_seq(path),
        PathStyle::Windows => windows_file_name(path),
    }
}

/// The file name given by the pieces of a path.
fn file_name_from_pieces(pieces: &Vec<Vec<char>>, dot_is_component: bool) -> (r: Option<
    Vec<char>,
>)
    ensures
        match r {
            Some(n) => file_name_of_pieces(views(pieces@), dot_is_component) == Some(n@),
            None => file_name_of_pieces(views(pieces@), dot_is_component) is None,
        },
{
    let ghost ps = views(pieces@);
    let mut j: usize = pieces.len();
    assert(ps.take(pieces.len() as int) =~= ps);
    while j > 0 && !(pieces[j - 1].len() > 0 && (dot_is_component || !(pieces[j - 1].len() == 1
        && pieces[j - 1][0] == '.')))
        invariant
            j <= pieces.len(),
            ps == views(pieces@),
            last_component(ps, dot_is_component) == last_component(
                ps.take(j as int),
                dot_is_component,
            ),
        decreases j,
    {
        assert(ps.take(j as int).drop_last() =~= ps.take(j - 1));
        assert(pieces@[j - 1]@ == ps.take(j as int).last());
        assert(!is_component(ps.take(j as int).last(), dot_is_component)) by {
            if pieces[j - 1]@.len() == 1 {
                assert(pieces[j - 1]@ =~= seq!['.']);
            }
        };
        j -= 1;
    }
    assert(ps.take(pieces.len() as int) =~= ps);
    if j == 0 {
        assert(ps.take(0) =~= Seq::<Seq<char>>::empty());
        return None;
    }
    let last = &pieces[j - 1];
    assert(ps.take(j as int).last() == last@);
    assert(is_component(last@, dot_is_component)) by {
        if last@ == seq!['.'] {
            assert(last@.len() == 1 && last@[0] == '.');
        }
    };
    let is_dots = (last.len() == 2 && last[0] == '.' && last[1] == '.') || (last.len() == 1
        && last[0] == '.');
    if is_dots {
        assert(last@ =~= seq!['.', '.'] || last@ =~= seq!['.']);
        None
    } else {
        assert(last@ != seq!['.', '.'] && last@ != seq!['.']) by {
            if last@ == seq!['.', '.'] {
                assert(last@.len() == 2 && last@[0] == '.' && last@[1] == '.');
            }
            if last@ == seq!['.'] {
                assert(last@.len() == 1 && last@[0] == '.');
            }
        };
        Some(sub_chars(last, 0, last.len()))
    }
}

/// The file name of a `/`-separated path.
pub fn file_name_chars(path: &[char]) -> (r: Option<Vec<char>>)
    ensures
        match r {
            Some(n) => file_name_seq(path@) == Some(n@),
            None => file_name_seq(path@) is None,
        },
{
    let pieces = split_chars(path, '/');
    file_name_from_pieces(&pieces, false)
}

/// Length of the component starting at `from`.
fn component_length_at(path: &[char], from: usize, verbatim: bool) -> (r: usize)
    requires
        from <= path.len(),
    ensures
        r == component_length(path@.skip(from as int), verbatim),
        from + r <= path.len(),
        from + r < path.len() ==> is_windows_separator(path@[from + r], verbatim),
{
    let mut i: usize = from;
    while i < path.len() && !(path[i] == '\\' || (!verbatim && path[i] == '/'))
        invariant
            from <= i <= path.len(),
            component_length(path@.skip(from as int), verbatim) == (i - from) + component_length(
                path@.skip(i as int),
                verbatim,
            ),
        decreases path.len() - i,
    {
        assert(path@.skip(i as int).drop_first() =~= path@.skip(i + 1));
        assert(path@.skip(i as int)[0] == path@[i as int]);
        i += 1;
    }
    if i < path.len() {
        assert(path@.skip(i as int)[0] == path@[i as int]);
    } else {
        assert(path@.skip(i as int).len() == 0);
    }
    i - from
}

/// Whether `text` stands at `at`, read as a prefix is read.
fn text_at_chars(path: &[char], at: usize, text: &str) -> (r: bool)
    ensures
        r == text_at(path@, at as int, text@),
{
    let t = chars_of(text);
    if t.len() > path.len() || at > path.len() - t.len() {
        return false;
    }
    let mut k: usize = 0;
    while k < t.len()
        invariant
            k <= t.len(),
            t@ == text@,
            at + t.len() <= path.len(),
            forall|m: int| 0 <= m < k ==> prefix_char(path@, at + m) == #[trigger] t@[m],
        decreases t.len() - k,
    {
        let i = at + k;
        let c = if i < 8 && path[i] == '/' {
            '\\'
        } else {
            path[i]
        };
        if c != t[k] {
            assert(prefix_char(path@, at + k) != t@[k as int]);
            return false;
        }
        k += 1;
    }
    true
}

/// An ASCII letter.
fn ascii_letter(c: char) -> (r: bool)
    ensures
        r == is_ascii_letter(c),
{
    ('a' <= c && c <= 'z') || ('A' <= c && c <= 'Z')
}

/// Length of the Windows prefix of `path`, and whether it is verbatim.
fn windows_prefix_chars(path: &[char]) -> (r: (usize, bool))
    ensures
        (r.0 as nat, r.1) == windows_prefix(path@),
        r.0 <= path.len(),
{
    proof {
        reveal_strlit("\\\\");
        reveal_strlit("?\\");
        reveal_strlit("UNC\\");
        reveal_strlit(".\\");
    }
    let len = path.len();
    if text_at_chars(path, 0, "\\\\") {
        if text_at_chars(path, 2, "?\\") && path[0] != '/' && path[1] != '/' && path[2] != '/'
            && path[3] != '/' {
            if text_at_chars(path, 4, "UNC\\") {
                let ghost rest = path@.skip(8);
                let server = component_length_at(path, 8, true);
                let share = if 8 + server < len {
                    assert(rest.skip(server + 1) =~= path@.skip(8 + server + 1));
                    component_length_at(path, 8 + server + 1, true)
                } else {
                    assert(after_component(rest, true) =~= Seq::<char>::empty());
                    0
                };
                if share > 0 {
                    (8 + server + share + 1, true)
                } else {
                    (8 + server, true)
                }
            } else if len >= 7 && ascii_letter(path[4]) && path[5] == ':' && path[6] == '\\' {
                (6, true)
            } else {
                (4 + component_length_at(path, 4, true), true)
            }
        } else if text_at_chars(path, 2, ".\\") {
            (4 + component_length_at(path, 4, false), false)
        } else {
            let ghost rest = path@.skip(2);
            let server = component_length_at(path, 2, false);
            let share = if 2 + server < len {
                assert(rest.skip(server + 1) =~= path@.skip(2 + server + 1));
                component_length_at(path, 2 + server + 1, false)
            } else {
                assert(after_component(rest, false) =~= Seq::<char>::empty());
                0
            };
            if server > 0 && share > 0 {
                (2 + server + 1 + share, false)
            } else {
                (0, false)
            }
        }
    } else if len >= 2 && ascii_letter(path[0]) && path[1] == ':' {
        (2, false)
    } else {
        (0, false)
    }
}

/// The file name of a Windows path.
pub fn windows_file_name_chars(path: &[char]) -> (r: Option<Vec<char>>)
    ensures
        match r {
            Some(n) => windows_file_name(path@) == Some(n@),
            None => windows_file_name(path@) is None,
        },
{
    let (n, verbatim) = windows_prefix_chars(path);
    let rest = sub_chars(path, n, path.len());
    assert(rest@ =~= path@.skip(n as int));
    if verbatim {
        let pieces = split_chars(&rest, '\\');
        file_name_from_pieces(&pieces, true)
    } else {
        let separated = slashes_chars(&rest);
        let pieces = split_chars(&separated, '/');
        file_name_from_pieces(&pieces, false)
    }
}

/// The file name of `path` read in `style`.
pub fn file_name_in(path: &[char], style: PathStyle) -> (r: Option<Vec<char>>)
    ensures
        match r {
            Some(n) => file_name_in_style(path@, style) == Some(n@),
            None => file_name_in_style(path@, style) is None,
        },
{
    match style {
        PathStyle::Unix => file_name_chars(path),
        PathStyle::Windows => windows_file_name_chars(path),
    }
}

/// `std::path::is_separator('\\')`: whether this platform's paths use `\`
/// as a separator. It depends on the platform the program was built for,
/// so nothing is stated of it.
#[verifier::external_body]
fn backslash_separates_paths() -> (r: bool) {
    std::path::is_separator('\\')
}

/// The path style of the platform the program runs on: Windows where `\`
/// separates path components, Unix otherwise.
pub fn host_path_style() -> (r: PathStyle) {
    if backslash_separates_paths() {
        PathStyle::Windows
    } else {
        PathStyle::Unix
    }
}

// ---------------------------------------------------------------------------
// Official browser names
// ---------------------------------------------------------------------------

/// Executable file names and the official names of the browsers they run.
pub open spec fn browser_name_entries() -> Seq<(Seq<char>, Seq<char>)> {
    seq![
        ("chrome"@, "Google Chrome"@),
        ("chromium"@, "Chromium"@),
        ("chromium-browser"@, "Chromium"@),
        ("firefox"@, "Mozilla Firefox"@),
        ("firefox-esr"@, "Mozilla Firefox ESR"@),
        ("librewolf"@, "LibreWolf"@),
        ("brave-browser"@, "Brave"@),
        ("opera"@, "Opera"@),
        ("vivaldi"@, "Vivaldi"@),
        ("thorium-browser"@, "Thorium"@),
        ("floorp"@, "Floorp"@),
    ]
}

/// Views of a list of string pairs.
pub open spec fn pair_views(v: Seq<(String, String)>) -> Seq<(Seq<char>, Seq<char>)> {
    v.map_values(|p: (String, String)| (p.0@, p.1@))
}

/// The value of the first entry whose key is `key`.
pub open spec fn lookup_seq(entries: Seq<(Seq<char>, Seq<char>)>, key: Seq<char>) -> Option<
    Seq<char>,
>
    decreases entries.len(),
{
    if entries.len() == 0 {
        None
    } else if entries[0].0 == key {
        Some(entries[0].1)
    } else {
        lookup_seq(entries.drop_first(), key)
    }
}

/// Whether some entry has the key `key`.
pub open spec fn has_key(entries: Seq<(Seq<char>, Seq<char>)>, key: Seq<char>) -> bool {
    lookup_seq(entries, key) is Some
}

/// Pushes one `(key, value)` pair of string literals.
fn push_pair(m: &mut Vec<(String, String)>, k: &str, v: &str)
    ensures
        pair_views(final(m)@) == pair_views(old(m)@).push((k@, v@)),
{
    let ghost before = m@;
    m.push((k.to_string(), v.to_string()));
    assert(pair_views(m@) =~= pair_views(before).push((k@, v@)));
}

/// Mapping from executable file names to official browser names, in a
/// fixed order.
pub fn get_browser_map() -> (m: Vec<(String, String)>)
    ensures
        pair_views(m@) == browser_name_entries(),
{
    let mut m: Vec<(String, String)> = Vec::new();
    push_pair(&mut m, "chrome", "Google Chrome");
    push_pair(&mut m, "chromium", "Chromium");
    push_pair(&mut m, "chromium-browser", "Chromium");
    push_pair(&mut m, "firefox", "Mozilla Firefox");
    push_pair(&mut m, "firefox-esr", "Mozilla Firefox ESR");
    push_pair(&mut m, "librewolf", "LibreWolf");
    push_pair(&mut m, "brave-browser", "Brave");
    push_pair(&mut m, "opera", "Opera");
    push_pair(&mut m, "vivaldi", "Vivaldi");
    push_pair(&mut m, "thorium-browser", "Thorium");
    push_pair(&mut m, "floorp", "Floorp");
    assert(pair_views(m@) =~= browser_name_entries());
    m
}

/// Looks `key` up among the pairs.
pub fn lookup_pairs(entries: &Vec<(String, String)>, key: &[char]) -> (r: Option<String>)
    ensures
        match r {
            Some(v) => lookup_seq(pair_views(entries@), key@) == Some(v@),
            None => lookup_seq(pair_views(entries@), key@) is None,
        },
{
    let ghost es = pair_views(entries@);
    let mut i: usize = 0;
    assert(es.skip(0) =~= es);
    while i < entries.len()
        invariant
            i <= entries.len(),
            es == pair_views(entries@),
            lookup_seq(es, key@) == lookup_seq(es.skip(i as int), key@),
        decreases entries.len() - i,
    {
        assert(es.skip(i as int).drop_first() =~= es.skip(i + 1));
        assert(es.skip(i as int)[0] == es[i as int]);
        let k = chars_of(entries[i].0.as_str());
        if same_chars(&k, key) {
            return Some(entries[i].1.clone());
        }
        i += 1;
    }
    assert(es.skip(entries.len() as int) =~= Seq::<(Seq<char>, Seq<char>)>::empty());
    None
}

/// The name shown for a browser at `path`, read in `style`: the official
/// name of its file name (compared in ASCII lowercase) when known, else the
/// file name, else the path itself.
pub open spec fn browser_name_spec(path: Seq<char>, style: PathStyle) -> Seq<char> {
    match file_name_in_style(path, style) {
        Some(n) => match lookup_seq(browser_name_entries(), ascii_lower_seq(n)) {
            Some(official) => official,
            None => n,
        },
        None => path,
    }
}

/// The displayable browser name of `path` read in `style`.
pub fn browser_name_in(path: &str, style: PathStyle) -> (r: String)
    ensures
        r@ == browser_name_spec(path@, style),
{
    let chars = chars_of(path);
    match file_name_in(&chars, style) {
        Some(name) => {
            let lower = ascii_lower_chars(&name);
            let map = get_browser_map();
            match lookup_pairs(&map, &lower) {
                Some(official) => official,
                None => string_of(&name),
            }
        },
        None => path.to_string(),
    }
}

/// Gets a displayable browser name from its path using the official name if
/// possible, reading the path as this platform's paths are read
/// (`host_path_style`).
pub fn get_browser_name_from_path(path: &str) -> (r: String)
    ensures
        r@ == browser_name_spec(path@, PathStyle::Unix) || r@ == browser_name_spec(
            path@,
            PathStyle::Windows,
        ),
{
    browser_name_in(path, host_path_style())
}

// ---------------------------------------------------------------------------
// Path normalisation
// ---------------------------------------------------------------------------

/// `s` with every backslash turned into a forward slash.
pub open spec fn slashes_seq(s: Seq<char>) -> Seq<char> {
    s.map_values(|c: char| if c == '\\' { '/' } else { c })
}

/// `s` without trailing slashes, except that `/` stays.
pub open spec fn strip_trailing_slashes(s: Seq<char>) -> Seq<char>
    decreases s.len(),
{
    if s.len() > 1 && s.last() == '/' {
        strip_trailing_slashes(s.drop_last())
    } else {
        s
    }
}

/// The purely syntactic normalisation of a path.
pub open spec fn normalize_fallback_spec(s: Seq<char>) -> Seq<char> {
    strip_trailing_slashes(slashes_seq(s))
}

/// The normalisation of `path`, given what canonicalising it on the file
/// system gave (`None` when that failed).
pub open spec fn normalize_resolved_spec(canonical: Option<Seq<char>>, path: Seq<char>) -> Seq<
    char,
> {
    match canonical {
        Some(c) => slashes_seq(c),
        None => normalize_fallback_spec(path),
    }
}

/// Turns backslashes into forward slashes.
pub fn slashes_chars(v: &[char]) -> (r: Vec<char>)
    ensures
        r@ == slashes_seq(v@),
{
    let mut r: Vec<char> = Vec::new();
    let mut i: usize = 0;
    while i < v.len()
        invariant
            i <= v.len(),
            r@ == slashes_seq(v@.take(i as int)),
        decreases v.len() - i,
    {
        assert(slashes_seq(v@.take(i + 1)) =~= slashes_seq(v@.take(i as int)).push(
            if v@[i as int] == '\\' {
                '/'
            } else {
                v@[i as int]
            },
        ));
        if v[i] == '\\' {
            r.push('/');
        } else {
            r.push(v[i]);
        }
        i += 1;
    }
    assert(v@.take(v.len() as int) =~= v@);
    r
}

/// Syntactic, filesystem-independent normalization used when
/// canonicalisation fails: backslashes become slashes and trailing
/// slashes go, except for the root `/`.
pub fn normalize_fallback(path: &str) -> (r: String)
    ensures
        r@ == normalize_fallback_spec(path@),
        !r@.contains('\\'),
        r@.len() > 1 ==> r@.last() != '/',
{
    let chars = chars_of(path);
    let mut v = slashes_chars(&chars);
    while v.len() > 1 && v[v.len() - 1] == '/'
        invariant
            normalize_fallback_spec(path@) == strip_trailing_slashes(v@),
        decreases v.len(),
    {
        v.pop();
    }
    proof {
        lemma_fallback_shape(path@);
    }
    string_of(&v)
}

/// Shape of a fallback normalisation: no backslash, no trailing slash
/// except for the root.
pub proof fn lemma_fallback_shape(s: Seq<char>)
    ensures
        !normalize_fallback_spec(s).contains('\\'),
        normalize_fallback_spec(s).len() > 1 ==> normalize_fallback_spec(s).last() != '/',
{
    lemma_strip_prefix(slashes_seq(s));
    let t = normalize_fallback_spec(s);
    if t.contains('\\') {
        let i = choose|i: int| 0 <= i < t.len() && t[i] == '\\';
        assert(slashes_seq(s)[i] == '\\');
    }
}

/// Stripping trailing slashes keeps a prefix and stops at a non-slash end.
pub proof fn lemma_strip_prefix(s: Seq<char>)
    ensures
        strip_trailing_slashes(s).len() <= s.len(),
        strip_trailing_slashes(s) == s.take(strip_trailing_slashes(s).len() as int),
        strip_trailing_slashes(s).len() > 1 ==> strip_trailing_slashes(s).last() != '/',
        s.len() > 0 ==> strip_trailing_slashes(s).len() > 0,
    decreases s.len(),
{
    if s.len() > 1 && s.last() == '/' {
        lemma_strip_prefix(s.drop_last());
        let t = strip_trailing_slashes(s.drop_last());
        assert(s.drop_last().take(t.len() as int) =~= s.take(t.len() as int));
    } else {
        assert(s.take(s.len() as int) =~= s);
    }
}

/// Normalising twice is normalising once.
pub proof fn lemma_fallback_idempotent(s: Seq<char>)
    ensures
        normalize_fallback_spec(normalize_fallback_spec(s)) == normalize_fallback_spec(s),
{
    let t = normalize_fallback_spec(s);
    lemma_fallback_shape(s);
    assert(slashes_seq(t) =~= t);
}

/// `Path::canonicalize`, the result rendered lossily as text; `None` when it
/// fails. Which path comes back depends on the file system; all that is
/// stated is what std documents of every success: it is an absolute path,
/// so not empty.
#[verifier::external_body]
fn canonicalize_lossy(path: &str) -> (r: Option<String>)
    ensures
        r matches Some(c) ==> c@.len() > 0,
{
    std::path::Path::new(path).canonicalize().ok().map(|p| p.to_string_lossy().into_owned())
}

/// Normalises `path` from the result of canonicalising it.
pub fn normalize_resolved(canonical: Option<String>, path: &str) -> (r: String)
    ensures
        r@ == normalize_resolved_spec(opt_view(canonical), path@),
        !r@.contains('\\'),
        canonical matches Some(c) ==> r@.len() == c@.len() && forall|i: int|
            0 <= i < c@.len() ==> (#[trigger] r@[i]) == (if c@[i] == '\\' {
                '/'
            } else {
                c@[i]
            }),
        canonical is None ==> r@ == normalize_fallback_spec(path@),
{
    match canonical {
        Some(c) => {
            let cs = chars_of(c.as_str());
            let v = slashes_chars(&cs);
            assert(!v@.contains('\\')) by {
                if v@.contains('\\') {
                    let i = choose|i: int| 0 <= i < v@.len() && v@[i] == '\\';
                    assert(slashes_seq(cs@)[i] == '\\');
                }
            };
            string_of(&v)
        },
        None => normalize_fallback(path),
    }
}

/// A successful canonicalisation decides the result alone: the canonical
/// text with each backslash turned into a slash, whatever the path was;
/// the syntactic fallback applies only when canonicalisation failed.
pub proof fn lemma_canonical_form_wins(c: Seq<char>, path: Seq<char>, other: Seq<char>)
    ensures
        normalize_resolved_spec(Some(c), path) == normalize_resolved_spec(Some(c), other),
        normalize_resolved_spec(Some(c), path).len() == c.len(),
        forall|i: int|
            0 <= i < c.len() ==> (#[trigger] normalize_resolved_spec(Some(c), path)[i]) == (if c[i]
                == '\\' {
                '/'
            } else {
                c[i]
            }),
        normalize_resolved_spec(None, path) == normalize_fallback_spec(path),
{
}

/// Normalizes a path for cross-platform deduplication: the file system's
/// canonical form when canonicalisation succeeds, with backslashes turned
/// into slashes; otherwise the syntactic fallback.
pub fn normalize_path(path: &str) -> (r: String)
    ensures
        !r@.contains('\\'),
        exists|canonical: Option<Seq<char>>| r@ == normalize_resolved_spec(canonical, path@),
        path@.len() > 0 ==> r@.len() > 0,
{
    let canonical = canonicalize_lossy(path);
    let ghost c = opt_view(canonical);
    let r = normalize_resolved(canonical, path);
    assert(r@ == normalize_resolved_spec(c, path@));
    proof {
        lemma_strip_prefix(slashes_seq(path@));
    }
    r
}

// ---------------------------------------------------------------------------
// Sorted browser lists
// ---------------------------------------------------------------------------

/// Lexicographic order on characters (the order of `String`'s `Ord`, since
/// UTF-8 preserves the order of code points).
pub open spec fn seq_less(a: Seq<char>, b: Seq<char>) -> bool
    decreases a.len(),
{
    if a.len() == 0 {
        b.len() > 0
    } else if b.len() == 0 {
        false
    } else if a[0] != b[0] {
        (a[0] as int) < (b[0] as int)
    } else {
        seq_less(a.drop_first(), b.drop_first())
    }
}

/// Every element is smaller than every later one.
pub open spec fn strictly_sorted(s: Seq<Seq<char>>) -> bool {
    forall|i: int, j: int| 0 <= i < j < s.len() ==> seq_less(#[trigger] s[i], #[trigger] s[j])
}

/// Outcome of comparing two texts.
pub enum Order {
    Less,
    Equal,
    Greater,
}

/// No text is smaller than itself.
pub proof fn lemma_less_irreflexive(a: Seq<char>)
    ensures
        !seq_less(a, a),
    decreases a.len(),
{
    if a.len() > 0 {
        lemma_less_irreflexive(a.drop_first());
    }
}

/// The order is transitive.
pub proof fn lemma_less_transitive(a: Seq<char>, b: Seq<char>, c: Seq<char>)
    requires
        seq_less(a, b),
        seq_less(b, c),
    ensures
        seq_less(a, c),
    decreases a.len(),
{
    if a.len() > 0 && b.len() > 0 && c.len() > 0 && a[0] == b[0] && b[0] == c[0] {
        lemma_less_transitive(a.drop_first(), b.drop_first(), c.drop_first());
    }
}

/// Two different texts are ordered one way or the other.
pub proof fn lemma_less_total(a: Seq<char>, b: Seq<char>)
    ensures
        a == b || seq_less(a, b) || seq_less(b, a),
    decreases a.len(),
{
    if a.len() > 0 && b.len() > 0 && a[0] == b[0] {
        lemma_less_total(a.drop_first(), b.drop_first());
        if a.drop_first() == b.drop_first() {
            assert(a =~= seq![a[0]] + a.drop_first());
            assert(b =~= seq![b[0]] + b.drop_first());
        }
    } else if a.len() == 0 && b.len() == 0 {
        assert(a =~= b);
    }
}

/// Comparing after a common prefix.
proof fn lemma_less_skip(a: Seq<char>, b: Seq<char>, i: int)
    requires
        0 <= i <= a.len(),
        i <= b.len(),
        a.take(i) == b.take(i),
    ensures
        seq_less(a, b) == seq_less(a.skip(i), b.skip(i)),
    decreases i,
{
    if i > 0 {
        assert(a[0] == a.take(i)[0]);
        assert(b[0] == b.take(i)[0]);
        assert(a.drop_first().take(i - 1) =~= a.take(i).drop_first());
        assert(b.drop_first().take(i - 1) =~= b.take(i).drop_first());
        lemma_less_skip(a.drop_first(), b.drop_first(), i - 1);
        assert(a.drop_first().skip(i - 1) =~= a.skip(i));
        assert(b.drop_first().skip(i - 1) =~= b.skip(i));
    } else {
        assert(a.skip(0) =~= a);
        assert(b.skip(0) =~= b);
    }
}

/// Compares two texts lexicographically.
pub fn order_chars(a: &[char], b: &[char]) -> (r: Order)
    ensures
        match r {
            Order::Less => seq_less(a@, b@),
            Order::Equal => a@ == b@,
            Order::Greater => seq_less(b@, a@),
        },
{
    let mut i: usize = 0;
    while i < a.len() && i < b.len() && a[i] == b[i]
        invariant
            i <= a.len(),
            i <= b.len(),
            a@.take(i as int) == b@.take(i as int),
        decreases a.len() - i,
    {
        assert(a@.take(i + 1) =~= a@.take(i as int).push(a@[i as int]));
        assert(b@.take(i + 1) =~= b@.take(i as int).push(b@[i as int]));
        i += 1;
    }
    proof {
        lemma_less_skip(a@, b@, i as int);
        lemma_less_skip(b@, a@, i as int);
    }
    if i < a.len() && i < b.len() {
        assert(a@.skip(i as int)[0] == a@[i as int]);
        assert(b@.skip(i as int)[0] == b@[i as int]);
        if a[i] < b[i] {
            Order::Less
        } else {
            Order::Greater
        }
    } else if i == a.len() && i == b.len() {
        assert(a@ =~= a@.take(i as int));
        assert(b@ =~= b@.take(i as int));
        Order::Equal
    } else if i == a.len() {
        Order::Less
    } else {
        Order::Greater
    }
}

/// The distinct texts of `items` in increasing order (the deduplicated,
/// sorted browser list offered to the user).
pub fn sorted_unique(items: Vec<String>) -> (r: Vec<String>)
    ensures
        strictly_sorted(string_views(r@)),
        forall|x: Seq<char>|
            string_views(r@).contains(x) <==> string_views(items@).contains(x),
{
    let mut r: Vec<String> = Vec::new();
    let mut i: usize = 0;
    while i < items.len()
        invariant
            i <= items.len(),
            strictly_sorted(string_views(r@)),
            forall|x: Seq<char>|
                string_views(r@).contains(x) <==> string_views(items@.take(i as int)).contains(x),
        decreases items.len() - i,
    {
        let ghost rv = string_views(r@);
        let ghost before = string_views(items@.take(i as int));
        let x = chars_of(items[i].as_str());
        assert(string_views(items@.take(i + 1)) =~= before.push(x@));
        let mut k: usize = 0;
        let mut found = false;
        while k < r.len()
            invariant_except_break
                !found,
            invariant
                k <= r.len(),
                rv == string_views(r@),
                forall|m: int| 0 <= m < k ==> seq_less(#[trigger] rv[m], x@),
            ensures
                found ==> k < r.len() && rv[k as int] == x@,
                !found ==> k == r.len() || seq_less(x@, rv[k as int]),
            decreases r.len() - k,
        {
            let y = chars_of(r[k].as_str());
            match order_chars(&y, &x) {
                Order::Less => {
                    k += 1;
                },
                Order::Equal => {
                    found = true;
                    break;
                },
                Order::Greater => {
                    break;
                },
            }
        }
        if found {
            assert(rv[k as int] == x@);
            assert forall|z: Seq<char>|
                rv.contains(z) <==> before.push(x@).contains(z) by {
                if z == x@ {
                    assert(rv[k as int] == z);
                    assert(before.push(x@)[before.len() as int] == z);
                }
                if before.push(x@).contains(z) && z != x@ {
                    let w = choose|w: int| 0 <= w < before.push(x@).len() && before.push(x@)[w] == z;
                    assert(before[w] == z);
                }
                if before.contains(z) {
                    let w = choose|w: int| 0 <= w < before.len() && before[w] == z;
                    assert(before.push(x@)[w] == z);
                }
            }
        } else {
            let item = items[i].clone();
            r.insert(k, item);
            let ghost nv = string_views(r@);
            assert(nv =~= rv.insert(k as int, x@));
            assert forall|p: int, q: int| 0 <= p < q < nv.len() implies seq_less(
                #[trigger] nv[p],
                #[trigger] nv[q],
            ) by {
                if q < k {
                    assert(nv[p] == rv[p] && nv[q] == rv[q]);
                } else if q == k {
                    assert(nv[p] == rv[p]);
                } else if p == k {
                    assert(nv[q] == rv[q - 1]);
                    if q - 1 > k {
                        assert(seq_less(rv[k as int], rv[q - 1]));
                        lemma_less_transitive(x@, rv[k as int], rv[q - 1]);
                    }
                } else if p < k {
                    assert(nv[p] == rv[p] && nv[q] == rv[q - 1]);
                    if q - 1 >= k {
                        if q - 1 > k {
                            assert(seq_less(rv[k as int], rv[q - 1]));
                            lemma_less_transitive(x@, rv[k as int], rv[q - 1]);
                        }
                        lemma_less_transitive(rv[p], x@, rv[q - 1]);
                    }
                } else {
                    assert(nv[p] == rv[p - 1] && nv[q] == rv[q - 1]);
                }
            }
            assert forall|z: Seq<char>| nv.contains(z) <==> before.push(x@).contains(z) by {
                if nv.contains(z) {
                    let w = choose|w: int| 0 <= w < nv.len() && nv[w] == z;
                    if w < k {
                        assert(rv[w] == z);
                    } else if w > k {
                        assert(rv[w - 1] == z);
                    }
                }
                if rv.contains(z) {
                    let w = choose|w: int| 0 <= w < rv.len() && rv[w] == z;
                    if w < k {
                        assert(nv[w] == z);
                    } else {
                        assert(nv[w + 1] == z);
                    }
                }
                if z == x@ {
                    assert(nv[k as int] == z);
                    assert(before.push(x@)[before.len() as int] == z);
                }
                if before.push(x@).contains(z) && z != x@ {
                    let w = choose|w: int| 0 <= w < before.push(x@).len() && before.push(x@)[w] == z;
                    assert(before[w] == z);
                }
                if before.contains(z) {
                    let w = choose|w: int| 0 <= w < before.len() && before[w] == z;
                    assert(before.push(x@)[w] == z);
                }
            }
        }
        i += 1;
    }
    assert(items@.take(items.len() as int) =~= items@);
    r
}

/// A text is not smaller than a smaller one.
pub proof fn lemma_less_asymmetric(a: Seq<char>, b: Seq<char>)
    requires
        seq_less(a, b),
    ensures
        !seq_less(b, a),
{
    if seq_less(b, a) {
        lemma_less_transitive(a, b, a);
        lemma_less_irreflexive(a);
    }
}

/// Two strictly sorted lists with the same elements are the same list: the
/// sorted browser list depends only on which browsers were found, not on the
/// order or repetitions in which they were found.
pub proof fn lemma_sorted_lists_equal(a: Seq<Seq<char>>, b: Seq<Seq<char>>)
    requires
        strictly_sorted(a),
        strictly_sorted(b),
        forall|x: Seq<char>| a.contains(x) <==> b.contains(x),
    ensures
        a == b,
    decreases a.len(),
{
    if a.len() == 0 {
        if b.len() > 0 {
            assert(b.contains(b[0]));
        }
        assert(a =~= b);
    } else {
        assert(a.contains(a[0]));
        let j = choose|j: int| 0 <= j < b.len() && b[j] == a[0];
        assert(b.contains(b[0]));
        let i = choose|i: int| 0 <= i < a.len() && a[i] == b[0];
        if j > 0 {
            assert(seq_less(b[0], b[j]));
            if i > 0 {
                assert(seq_less(a[0], a[i]));
                lemma_less_asymmetric(a[0], a[i]);
            } else {
                lemma_less_irreflexive(a[0]);
            }
        }
        assert(b[0] == a[0]);
        let ta = a.drop_first();
        let tb = b.drop_first();
        assert forall|x: Seq<char>| ta.contains(x) <==> tb.contains(x) by {
            if ta.contains(x) {
                let k = choose|k: int| 0 <= k < ta.len() && ta[k] == x;
                assert(a[k + 1] == x);
                assert(a.contains(x));
                let m = choose|m: int| 0 <= m < b.len() && b[m] == x;
                if m == 0 {
                    assert(seq_less(a[0], a[k + 1]));
                    lemma_less_irreflexive(a[0]);
                }
                assert(tb[m - 1] == x);
            }
            if tb.contains(x) {
                let k = choose|k: int| 0 <= k < tb.len() && tb[k] == x;
                assert(b[k + 1] == x);
                assert(b.contains(x));
                let m = choose|m: int| 0 <= m < a.len() && a[m] == x;
                if m == 0 {
                    assert(seq_less(b[0], b[k + 1]));
                    lemma_less_irreflexive(b[0]);
                }
                assert(ta[m - 1] == x);
            }
        }
        assert(strictly_sorted(ta)) by {
            assert forall|p: int, q: int| 0 <= p < q < ta.len() implies seq_less(
                #[trigger] ta[p],
                #[trigger] ta[q],
            ) by {
                assert(ta[p] == a[p + 1] && ta[q] == a[q + 1]);
            }
        };
        assert(strictly_sorted(tb)) by {
            assert forall|p: int, q: int| 0 <= p < q < tb.len() implies seq_less(
                #[trigger] tb[p],
                #[trigger] tb[q],
            ) by {
                assert(tb[p] == b[p + 1] && tb[q] == b[q + 1]);
            }
        };
        lemma_sorted_lists_equal(ta, tb);
        assert(a =~= seq![a[0]] + ta);
        assert(b =~= seq![b[0]] + tb);
    }
}

} // verus!

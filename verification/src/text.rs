//! Character-level text operations with their mathematical meaning.
//!
//! Strings are handled as sequences of Unicode scalar values (`Seq<char>`);
//! each executable helper states its result over the spec functions below.
use vstd::prelude::*;
use vstd::utf8::{decode_utf8, valid_utf8};

verus! {

broadcast use vstd::string::group_string_axioms;

// ---------------------------------------------------------------------------
// Specifications
// ---------------------------------------------------------------------------

/// The Unicode `White_Space` property, which `char::is_whitespace` tests.
pub open spec fn is_space(c: char) -> bool {
    let u = c as u32;
    ||| 0x09 <= u <= 0x0D
    ||| u == 0x20
    ||| u == 0x85
    ||| u == 0xA0
    ||| u == 0x1680
    ||| 0x2000 <= u <= 0x200A
    ||| u == 0x2028
    ||| u == 0x2029
    ||| u == 0x202F
    ||| u == 0x205F
    ||| u == 0x3000
}

/// `s` without its leading white space.
pub open spec fn trim_start_seq(s: Seq<char>) -> Seq<char>
    decreases s.len(),
{
    if s.len() > 0 && is_space(s[0]) {
        trim_start_seq(s.drop_first())
    } else {
        s
    }
}

/// `s` without its trailing white space.
pub open spec fn trim_end_seq(s: Seq<char>) -> Seq<char>
    decreases s.len(),
{
    if s.len() > 0 && is_space(s.last()) {
        trim_end_seq(s.drop_last())
    } else {
        s
    }
}

/// `s` without leading and trailing white space (what `str::trim` returns).
pub open spec fn trim_seq(s: Seq<char>) -> Seq<char> {
    trim_end_seq(trim_start_seq(s))
}

/// `pat` occurs in `s` starting at position `i`.
pub open spec fn occurs_at(s: Seq<char>, pat: Seq<char>, i: int) -> bool {
    0 <= i && i + pat.len() <= s.len() && s.subrange(i, i + pat.len()) == pat
}

/// `pat` is a substring of `s` (what `str::contains` tests).
pub open spec fn contains_seq(s: Seq<char>, pat: Seq<char>) -> bool {
    exists|i: int| occurs_at(s, pat, i)
}

/// `s` starts with `pat`.
pub open spec fn starts_with_seq(s: Seq<char>, pat: Seq<char>) -> bool {
    occurs_at(s, pat, 0)
}

/// The pieces of `s` between occurrences of `sep`, empty pieces included
/// (what `str::split` with a character yields).
pub open spec fn split_seq(s: Seq<char>, sep: char) -> Seq<Seq<char>>
    decreases s.len(),
{
    if s.len() == 0 {
        seq![Seq::<char>::empty()]
    } else {
        let p = split_seq(s.drop_last(), sep);
        if s.last() == sep {
            p.push(Seq::<char>::empty())
        } else {
            p.update(p.len() - 1, p.last().push(s.last()))
        }
    }
}

/// Position of the first `c` in `s`, if any.
pub open spec fn first_index_of(s: Seq<char>, c: char) -> Option<int>
    decreases s.len(),
{
    if s.len() == 0 {
        None
    } else if s[0] == c {
        Some(0)
    } else {
        match first_index_of(s.drop_first(), c) {
            Some(i) => Some(i + 1),
            None => None,
        }
    }
}

/// Words of `s` read so far, and the word being read (scanning left to right).
pub open spec fn words_state(s: Seq<char>) -> (Seq<Seq<char>>, Seq<char>)
    decreases s.len(),
{
    if s.len() == 0 {
        (Seq::<Seq<char>>::empty(), Seq::<char>::empty())
    } else {
        let st = words_state(s.drop_last());
        if is_space(s.last()) {
            if st.1.len() > 0 {
                (st.0.push(st.1), Seq::<char>::empty())
            } else {
                st
            }
        } else {
            (st.0, st.1.push(s.last()))
        }
    }
}

/// The maximal runs of non-white-space characters of `s`
/// (what `str::split_whitespace` yields).
pub open spec fn words_seq(s: Seq<char>) -> Seq<Seq<char>> {
    let st = words_state(s);
    if st.1.len() > 0 {
        st.0.push(st.1)
    } else {
        st.0
    }
}

/// `line` without one trailing carriage return.
pub open spec fn strip_cr(line: Seq<char>) -> Seq<char> {
    if line.len() > 0 && line.last() == '\r' {
        line.drop_last()
    } else {
        line
    }
}

/// The lines of `s` (what `str::lines` yields): pieces between `'\n'`, a
/// `'\r'` before a `'\n'` removed, no final empty piece.
pub open spec fn lines_seq(s: Seq<char>) -> Seq<Seq<char>> {
    let p = split_seq(s, '\n');
    let n: nat = if p.last().len() == 0 {
        (p.len() - 1) as nat
    } else {
        p.len()
    };
    Seq::new(n, |i: int| if i < p.len() - 1 { strip_cr(p[i]) } else { p[i] })
}

/// The pieces joined with `sep` between consecutive pieces.
pub open spec fn join_seq(parts: Seq<Seq<char>>, sep: Seq<char>) -> Seq<char>
    decreases parts.len(),
{
    if parts.len() == 0 {
        Seq::<char>::empty()
    } else if parts.len() == 1 {
        parts[0]
    } else {
        join_seq(parts.drop_last(), sep) + sep + parts.last()
    }
}

/// `s` with every non-overlapping occurrence of `from`, scanned left to
/// right, replaced by `to` (what `str::replace` returns for a non-empty `from`).
pub open spec fn replace_seq(s: Seq<char>, from: Seq<char>, to: Seq<char>) -> Seq<char>
    decreases s.len(),
{
    if from.len() == 0 || s.len() < from.len() {
        s
    } else if s.take(from.len() as int) == from {
        to + replace_seq(s.skip(from.len() as int), from, to)
    } else {
        seq![s[0]] + replace_seq(s.skip(1), from, to)
    }
}

/// ASCII lowercase of one character.
pub open spec fn ascii_lower(c: char) -> char {
    if 'A' <= c <= 'Z' {
        ((c as u32) + 32) as char
    } else {
        c
    }
}

/// ASCII lowercase of a string (what `str::to_ascii_lowercase` returns).
pub open spec fn ascii_lower_seq(s: Seq<char>) -> Seq<char> {
    s.map_values(|c: char| ascii_lower(c))
}

/// Views of a sequence of character vectors.
pub open spec fn views(v: Seq<Vec<char>>) -> Seq<Seq<char>> {
    v.map_values(|x: Vec<char>| x@)
}

/// View of an optional string.
pub open spec fn opt_view(o: Option<String>) -> Option<Seq<char>> {
    match o {
        Some(s) => Some(s@),
        None => None,
    }
}

/// Views of a sequence of strings.
pub open spec fn string_views(v: Seq<String>) -> Seq<Seq<char>> {
    v.map_values(|x: String| x@)
}

/// What `str::to_lowercase` returns (full Unicode case mapping).
pub uninterp spec fn unicode_lowercase(s: Seq<char>) -> Seq<char>;

/// What `String::from_utf8_lossy` returns for bytes that are not valid UTF-8.
pub uninterp spec fn utf8_lossy(bytes: Seq<u8>) -> Seq<char>;

// ---------------------------------------------------------------------------
// Calls into std that vstd leaves unspecified
// ---------------------------------------------------------------------------

/// `String::push`: appends one character.
#[verifier::external_body]
pub(crate) fn push_char(s: &mut String, c: char)
    ensures
        final(s)@ == old(s)@.push(c),
{
    s.push(c)
}

/// `str::to_lowercase`: the full Unicode lowercase mapping of the text; its
/// result is named `unicode_lowercase`, a function of the text alone.
#[verifier::external_body]
pub(crate) fn to_lowercase(s: &str) -> (r: String)
    ensures
        r@ == unicode_lowercase(s@),
{
    s.to_lowercase()
}

/// `String::from_utf8_lossy`: valid UTF-8 is decoded exactly; otherwise
/// the result is named `utf8_lossy` (invalid sequences become U+FFFD).
#[verifier::external_body]
pub(crate) fn decode_utf8_lossy(bytes: &[u8]) -> (r: String)
    ensures
        valid_utf8(bytes@) ==> r@ == decode_utf8(bytes@),
        !valid_utf8(bytes@) ==> r@ == utf8_lossy(bytes@),
{
    String::from_utf8_lossy(bytes).into_owned()
}

// ---------------------------------------------------------------------------
// Conversions
// ---------------------------------------------------------------------------

/// Copies the characters of a string slice into a vector.
pub fn chars_of(s: &str) -> (v: Vec<char>)
    ensures
        v@ == s@,
{
    let mut v: Vec<char> = Vec::new();
    for c in it: s.chars()
        invariant
            it.seq() == s@,
            v@ == s@.take(it.index()),
    {
        assert(s@.take(it.index() + 1) == s@.take(it.index()).push(c));
        v.push(c);
    }
    assert(v@ =~= s@);
    v
}

/// Builds a string from characters.
pub fn string_of(v: &[char]) -> (s: String)
    ensures
        s@ == v@,
{
    let mut s = String::new();
    let mut i: usize = 0;
    while i < v.len()
        invariant
            i <= v.len(),
            s@ == v@.take(i as int),
        decreases v.len() - i,
    {
        assert(v@.take(i + 1) == v@.take(i as int).push(v@[i as int]));
        push_char(&mut s, v[i]);
        i += 1;
    }
    assert(v@.take(v.len() as int) == v@);
    s
}

/// Copies `v[from..to]`.
pub fn sub_chars(v: &[char], from: usize, to: usize) -> (r: Vec<char>)
    requires
        from <= to <= v.len(),
    ensures
        r@ == v@.subrange(from as int, to as int),
{
    let mut r: Vec<char> = Vec::new();
    let mut i = from;
    while i < to
        invariant
            from <= i <= to <= v.len(),
            r@ == v@.subrange(from as int, i as int),
        decreases to - i,
    {
        assert(v@.subrange(from as int, i + 1) == v@.subrange(from as int, i as int).push(v@[i as int]));
        r.push(v[i]);
        i += 1;
    }
    r
}

/// Copies `v`.
pub fn copy_chars(v: &[char]) -> (r: Vec<char>)
    ensures
        r@ == v@,
{
    let r = sub_chars(v, 0, v.len());
    assert(r@ =~= v@);
    r
}

/// Appends the characters of `s` to `out`.
pub fn push_str_chars(out: &mut Vec<char>, s: &str)
    ensures
        final(out)@ == old(out)@ + s@,
{
    let cs = chars_of(s);
    append_chars(out, &cs);
}

/// Appends `extra` to `out`.
pub fn append_chars(out: &mut Vec<char>, extra: &[char])
    ensures
        final(out)@ == old(out)@ + extra@,
{
    let ghost start = out@;
    let mut i: usize = 0;
    while i < extra.len()
        invariant
            i <= extra.len(),
            out@ == start + extra@.take(i as int),
        decreases extra.len() - i,
    {
        assert(extra@.take(i + 1) == extra@.take(i as int).push(extra@[i as int]));
        out.push(extra[i]);
        i += 1;
    }
    assert(extra@.take(extra.len() as int) == extra@);
}

/// Whether two character sequences are equal.
pub fn same_chars(a: &[char], b: &[char]) -> (r: bool)
    ensures
        r == (a@ == b@),
{
    if a.len() != b.len() {
        return false;
    }
    let mut i: usize = 0;
    while i < a.len()
        invariant
            i <= a.len() == b.len(),
            forall|j: int| 0 <= j < i ==> a@[j] == b@[j],
        decreases a.len() - i,
    {
        if a[i] != b[i] {
            return false;
        }
        i += 1;
    }
    assert(a@ =~= b@);
    true
}

/// Whether the characters equal those of a string slice.
pub fn chars_eq_str(a: &[char], b: &str) -> (r: bool)
    ensures
        r == (a@ == b@),
{
    let bv = chars_of(b);
    same_chars(a, &bv)
}

// ---------------------------------------------------------------------------
// Character classes and case
// ---------------------------------------------------------------------------

/// `char::is_whitespace`.
pub fn is_space_char(c: char) -> (r: bool)
    ensures
        r == is_space(c),
{
    let u = c as u32;
    (0x09 <= u && u <= 0x0D) || u == 0x20 || u == 0x85 || u == 0xA0 || u == 0x1680 || (0x2000
        <= u && u <= 0x200A) || u == 0x2028 || u == 0x2029 || u == 0x202F || u == 0x205F || u
        == 0x3000
}

/// `char::to_ascii_lowercase`.
pub fn ascii_lower_char(c: char) -> (r: char)
    ensures
        r == ascii_lower(c),
{
    if 'A' <= c && c <= 'Z' {
        let b: u8 = (c as u32 + 32) as u8;
        assert(b as char == ((c as u32) + 32) as char);
        b as char
    } else {
        c
    }
}

/// `str::to_ascii_lowercase`.
pub fn ascii_lower_chars(v: &[char]) -> (r: Vec<char>)
    ensures
        r@ == ascii_lower_seq(v@),
{
    let mut r: Vec<char> = Vec::new();
    let mut i: usize = 0;
    while i < v.len()
        invariant
            i <= v.len(),
            r@ == ascii_lower_seq(v@.take(i as int)),
        decreases v.len() - i,
    {
        assert(ascii_lower_seq(v@.take(i + 1)) =~= ascii_lower_seq(v@.take(i as int)).push(
            ascii_lower(v@[i as int]),
        ));
        let c = ascii_lower_char(v[i]);
        r.push(c);
        i += 1;
    }
    assert(v@.take(v.len() as int) == v@);
    r
}


// ---------------------------------------------------------------------------
// Scanning
// ---------------------------------------------------------------------------

/// Bounds `(a, b)` such that `v[a..b]` is `v` trimmed of white space.
pub fn trim_bounds(v: &[char]) -> (r: (usize, usize))
    ensures
        r.0 <= r.1 <= v.len(),
        v@.subrange(r.0 as int, r.1 as int) == trim_seq(v@),
{
    let mut a: usize = 0;
    assert(v@.skip(0) =~= v@);
    while a < v.len() && is_space_char(v[a])
        invariant
            a <= v.len(),
            trim_start_seq(v@) == trim_start_seq(v@.skip(a as int)),
        decreases v.len() - a,
    {
        assert(v@.skip(a as int).drop_first() =~= v@.skip(a + 1));
        a += 1;
    }
    assert(trim_start_seq(v@.skip(a as int)) == v@.skip(a as int));
    assert(v@.skip(a as int) =~= v@.subrange(a as int, v.len() as int));
    let mut b: usize = v.len();
    while b > a && is_space_char(v[b - 1])
        invariant
            a <= b <= v.len(),
            trim_seq(v@) == trim_end_seq(v@.subrange(a as int, b as int)),
        decreases b - a,
    {
        assert(v@.subrange(a as int, b as int).drop_last() =~= v@.subrange(a as int, b - 1));
        b -= 1;
    }
    (a, b)
}

/// `str::trim` on characters.
pub fn trim_chars(v: &[char]) -> (r: Vec<char>)
    ensures
        r@ == trim_seq(v@),
{
    let (a, b) = trim_bounds(v);
    sub_chars(v, a, b)
}

/// Whether `pat` occurs in `s` at position `i`.
pub fn occurs_at_chars(s: &[char], pat: &[char], i: usize) -> (r: bool)
    ensures
        r == occurs_at(s@, pat@, i as int),
{
    if i > s.len() || pat.len() > s.len() - i {
        return false;
    }
    let mut k: usize = 0;
    while k < pat.len()
        invariant
            i + pat.len() <= s.len(),
            k <= pat.len(),
            forall|j: int| 0 <= j < k ==> s@[i + j] == pat@[j],
        decreases pat.len() - k,
    {
        if s[i + k] != pat[k] {
            assert(s@.subrange(i as int, i + pat.len())[k as int] != pat@[k as int]);
            return false;
        }
        k += 1;
    }
    assert(s@.subrange(i as int, i + pat.len()) =~= pat@);
    true
}

/// `str::contains` on characters.
pub fn contains_chars(s: &[char], pat: &[char]) -> (r: bool)
    ensures
        r == contains_seq(s@, pat@),
{
    if pat.len() > s.len() {
        assert(forall|i: int| !occurs_at(s@, pat@, i));
        return false;
    }
    let limit = s.len() - pat.len();
    let mut i: usize = 0;
    loop
        invariant_except_break
            i <= limit,
            limit == s.len() - pat.len(),
            forall|j: int| 0 <= j < i ==> !occurs_at(s@, pat@, j),
        ensures
            forall|j: int| 0 <= j <= limit ==> !occurs_at(s@, pat@, j),
        decreases limit - i,
    {
        if occurs_at_chars(s, pat, i) {
            return true;
        }
        if i == limit {
            break;
        }
        i += 1;
    }
    false
}

/// Position of the first `c` in `s`.
pub fn first_index_chars(s: &[char], c: char) -> (r: Option<usize>)
    ensures
        match r {
            Some(i) => first_index_of(s@, c) == Some(i as int) && i < s.len() && s@[i as int] == c,
            None => first_index_of(s@, c) is None,
        },
{
    let mut i: usize = 0;
    while i < s.len()
        invariant
            i <= s.len(),
            forall|j: int| 0 <= j < i ==> s@[j] != c,
        decreases s.len() - i,
    {
        if s[i] == c {
            proof {
                lemma_first_index_of(s@, c, i as int);
            }
            return Some(i);
        }
        i += 1;
    }
    proof {
        lemma_first_index_none(s@, c);
    }
    None
}

/// The first occurrence of `c` is at `i` when no earlier character is `c`.
pub proof fn lemma_first_index_of(s: Seq<char>, c: char, i: int)
    requires
        0 <= i < s.len(),
        s[i] == c,
        forall|j: int| 0 <= j < i ==> s[j] != c,
    ensures
        first_index_of(s, c) == Some(i),
    decreases i,
{
    if i > 0 {
        lemma_first_index_of(s.drop_first(), c, i - 1);
    }
}

/// `c` has no first occurrence when it does not occur.
pub proof fn lemma_first_index_none(s: Seq<char>, c: char)
    requires
        forall|j: int| 0 <= j < s.len() ==> s[j] != c,
    ensures
        first_index_of(s, c) is None,
    decreases s.len(),
{
    if s.len() > 0 {
        lemma_first_index_none(s.drop_first(), c);
    }
}

/// `split_seq` always yields at least one piece.
pub proof fn lemma_split_nonempty(s: Seq<char>, sep: char)
    ensures
        split_seq(s, sep).len() >= 1,
    decreases s.len(),
{
    if s.len() > 0 {
        lemma_split_nonempty(s.drop_last(), sep);
    }
}

/// `str::split` on a character.
pub fn split_chars(s: &[char], sep: char) -> (r: Vec<Vec<char>>)
    ensures
        views(r@) == split_seq(s@, sep),
        r.len() >= 1,
{
    let mut done: Vec<Vec<char>> = Vec::new();
    let mut cur: Vec<char> = Vec::new();
    let mut i: usize = 0;
    while i < s.len()
        invariant
            i <= s.len(),
            views(done@).push(cur@) == split_seq(s@.take(i as int), sep),
        decreases s.len() - i,
    {
        let ghost before = s@.take(i as int);
        assert(s@.take(i + 1).drop_last() =~= before);
        proof {
            lemma_split_nonempty(before, sep);
        }
        if s[i] == sep {
            let piece = cur;
            done.push(piece);
            cur = Vec::new();
            assert(views(done@).push(cur@) =~= split_seq(s@.take(i + 1), sep));
        } else {
            cur.push(s[i]);
            assert(views(done@).push(cur@) =~= split_seq(s@.take(i + 1), sep));
        }
        i += 1;
    }
    assert(s@.take(s.len() as int) =~= s@);
    done.push(cur);
    assert(views(done@) =~= split_seq(s@, sep));
    done
}

/// `str::split_whitespace`.
pub fn words_chars(s: &[char]) -> (r: Vec<Vec<char>>)
    ensures
        views(r@) == words_seq(s@),
{
    let mut done: Vec<Vec<char>> = Vec::new();
    let mut cur: Vec<char> = Vec::new();
    let mut i: usize = 0;
    while i < s.len()
        invariant
            i <= s.len(),
            words_state(s@.take(i as int)) == (views(done@), cur@),
        decreases s.len() - i,
    {
        assert(s@.take(i + 1).drop_last() =~= s@.take(i as int));
        if is_space_char(s[i]) {
            if cur.len() > 0 {
                let piece = cur;
                done.push(piece);
                cur = Vec::new();
                assert(views(done@) =~= words_state(s@.take(i + 1)).0);
                assert(cur@ =~= words_state(s@.take(i + 1)).1);
            }
        } else {
            cur.push(s[i]);
        }
        i += 1;
    }
    assert(s@.take(s.len() as int) =~= s@);
    if cur.len() > 0 {
        done.push(cur);
        assert(views(done@) =~= words_seq(s@));
    }
    done
}

/// `str::lines`.
pub fn lines_chars(s: &[char]) -> (r: Vec<Vec<char>>)
    ensures
        views(r@) == lines_seq(s@),
{
    let p = split_chars(s, '\n');
    let n: usize = if p[p.len() - 1].len() == 0 {
        p.len() - 1
    } else {
        p.len()
    };
    let ghost target = lines_seq(s@);
    assert(target.len() == n);
    let mut r: Vec<Vec<char>> = Vec::new();
    let mut i: usize = 0;
    while i < n
        invariant
            n <= p.len(),
            i <= n,
            target.len() == n,
            views(p@) == split_seq(s@, '\n'),
            target == lines_seq(s@),
            views(r@) == target.take(i as int),
        decreases n - i,
    {
        let piece = &p[i];
        let line: Vec<char> = if i < p.len() - 1 && piece.len() > 0 && piece[piece.len() - 1]
            == '\r' {
            sub_chars(piece, 0, piece.len() - 1)
        } else {
            sub_chars(piece, 0, piece.len())
        };
        assert(line@ == target[i as int]);
        let ghost old_r = r@;
        r.push(line);
        assert(views(r@) =~= views(old_r).push(line@));
        assert(views(r@) =~= target.take(i + 1));
        i += 1;
    }
    assert(target.take(n as int) =~= target);
    r
}

/// The pieces joined by `sep`.
pub fn join_chars(parts: &Vec<Vec<char>>, sep: &[char]) -> (r: Vec<char>)
    ensures
        r@ == join_seq(views(parts@), sep@),
{
    let mut r: Vec<char> = Vec::new();
    let mut i: usize = 0;
    while i < parts.len()
        invariant
            i <= parts.len(),
            r@ == join_seq(views(parts@).take(i as int), sep@),
        decreases parts.len() - i,
    {
        let ghost vs = views(parts@);
        assert(vs.take(i + 1).drop_last() =~= vs.take(i as int));
        if i > 0 {
            append_chars(&mut r, sep);
        }
        append_chars(&mut r, &parts[i]);
        assert(r@ =~= join_seq(vs.take(i + 1), sep@));
        i += 1;
    }
    assert(views(parts@).take(parts.len() as int) =~= views(parts@));
    r
}

/// `str::replace` with a non-empty pattern.
pub fn replace_chars(s: &[char], from: &[char], to: &[char]) -> (r: Vec<char>)
    requires
        from.len() > 0,
    ensures
        r@ == replace_seq(s@, from@, to@),
{
    let mut out: Vec<char> = Vec::new();
    let mut i: usize = 0;
    assert(s@.skip(0) =~= s@);
    assert(out@ + s@ =~= s@);
    while i < s.len()
        invariant
            from.len() > 0,
            i <= s.len(),
            out@ + replace_seq(s@.skip(i as int), from@, to@) == replace_seq(s@, from@, to@),
        decreases s.len() - i,
    {
        let ghost rest = s@.skip(i as int);
        if occurs_at_chars(s, from, i) {
            assert(rest.take(from.len() as int) =~= s@.subrange(i as int, i + from.len()));
            assert(rest.skip(from.len() as int) =~= s@.skip(i + from.len()));
            append_chars(&mut out, to);
            assert(out@ + replace_seq(s@.skip(i + from.len()), from@, to@) =~= replace_seq(
                s@,
                from@,
                to@,
            ));
            i += from.len();
        } else {
            if from.len() <= s.len() - i {
                assert(rest.take(from.len() as int) =~= s@.subrange(i as int, i + from.len()));
            }
            assert(rest.skip(1) =~= s@.skip(i + 1));
            assert(rest =~= seq![s@[i as int]] + s@.skip(i + 1));
            out.push(s[i]);
            assert(out@ + replace_seq(s@.skip(i + 1), from@, to@) =~= replace_seq(
                s@,
                from@,
                to@,
            ));
            i += 1;
        }
    }
    assert(s@.skip(s.len() as int) =~= Seq::<char>::empty());
    assert(out@ =~= out@ + Seq::<char>::empty());
    out
}

// ---------------------------------------------------------------------------
// Lemmas
// ---------------------------------------------------------------------------

/// Every character of every piece of `split_seq(s, sep)` is a character of
/// `s` other than `sep`.
pub proof fn lemma_split_pieces(s: Seq<char>, sep: char)
    ensures
        forall|i: int, j: int|
            0 <= i < split_seq(s, sep).len() && 0 <= j < split_seq(s, sep)[i].len() ==> (
            #[trigger] split_seq(s, sep)[i][j] != sep && s.contains(split_seq(s, sep)[i][j])),
    decreases s.len(),
{
    if s.len() > 0 {
        let t = s.drop_last();
        lemma_split_pieces(t, sep);
        lemma_split_nonempty(t, sep);
        let p = split_seq(t, sep);
        let q = split_seq(s, sep);
        assert forall|i: int, j: int| 0 <= i < q.len() && 0 <= j < q[i].len() implies (
        #[trigger] q[i][j] != sep && s.contains(q[i][j])) by {
            if s.last() == sep {
                assert(q == p.push(Seq::<char>::empty()));
                assert(q[i][j] == p[i][j]);
                assert(t.contains(p[i][j]));
                let w = choose|w: int| 0 <= w < t.len() && t[w] == p[i][j];
                assert(s[w] == t[w]);
            } else {
                assert(q == p.update(p.len() - 1, p.last().push(s.last())));
                if i == p.len() - 1 && j == p.last().len() {
                    assert(q[i][j] == s.last());
                    assert(s[s.len() - 1] == s.last());
                } else {
                    assert(q[i][j] == p[i][j]);
                    assert(t.contains(p[i][j]));
                    let w = choose|w: int| 0 <= w < t.len() && t[w] == p[i][j];
                    assert(s[w] == t[w]);
                }
            }
        }
    }
}

/// Appending text without `sep` extends the last piece.
pub proof fn lemma_split_append_free(x: Seq<char>, b: Seq<char>, sep: char)
    requires
        !b.contains(sep),
    ensures
        split_seq(x + b, sep) == split_seq(x, sep).update(
            split_seq(x, sep).len() - 1,
            split_seq(x, sep).last() + b,
        ),
    decreases b.len(),
{
    lemma_split_nonempty(x, sep);
    let p = split_seq(x, sep);
    if b.len() == 0 {
        assert(x + b =~= x);
        assert(p.last() + b =~= p.last());
        assert(p.update(p.len() - 1, p.last() + b) =~= p);
    } else {
        let b1 = b.drop_last();
        assert(!b1.contains(sep)) by {
            if b1.contains(sep) {
                let w = choose|w: int| 0 <= w < b1.len() && b1[w] == sep;
                assert(b[w] == sep);
            }
        };
        assert(b[b.len() - 1] != sep);
        lemma_split_append_free(x, b1, sep);
        assert((x + b).drop_last() =~= x + b1);
        assert((x + b).last() == b.last());
        let q = split_seq(x + b1, sep);
        assert(q =~= p.update(p.len() - 1, p.last() + b1));
        assert(q.last().push(b.last()) =~= p.last() + b);
        assert(split_seq(x + b, sep) =~= p.update(p.len() - 1, p.last() + b));
    }
}

/// Splitting lines joined by `\n` gives the lines back.
pub proof fn lemma_split_join(parts: Seq<Seq<char>>)
    requires
        parts.len() >= 1,
        forall|i: int| 0 <= i < parts.len() ==> !(#[trigger] parts[i]).contains('\n'),
    ensures
        split_seq(join_seq(parts, seq!['\n']), '\n') == parts,
    decreases parts.len(),
{
    if parts.len() == 1 {
        lemma_split_append_free(Seq::<char>::empty(), parts[0], '\n');
        assert(Seq::<char>::empty() + parts[0] =~= parts[0]);
        assert(split_seq(parts[0], '\n') =~= parts);
    } else {
        let front = parts.drop_last();
        assert forall|i: int| 0 <= i < front.len() implies !(#[trigger] front[i]).contains('\n') by {
            assert(front[i] == parts[i]);
        }
        lemma_split_join(front);
        let j = join_seq(front, seq!['\n']);
        assert(join_seq(parts, seq!['\n']) == j + seq!['\n'] + parts.last());
        assert(j + seq!['\n'] =~= j.push('\n'));
        assert((j.push('\n')).drop_last() =~= j);
        assert(split_seq(j.push('\n'), '\n') == front.push(Seq::<char>::empty()));
        assert(!parts.last().contains('\n')) by {
            assert(parts[parts.len() - 1] == parts.last());
        };
        lemma_split_append_free(j.push('\n'), parts.last(), '\n');
        assert(Seq::<char>::empty() + parts.last() =~= parts.last());
        assert(split_seq(join_seq(parts, seq!['\n']), '\n') =~= parts);
    }
}

/// The lines of lines joined by `\n`: none holds `\n`, and none that a
/// `\n` follows ends in `\r` (which reading lines would strip).
pub proof fn lemma_lines_of_join(parts: Seq<Seq<char>>)
    requires
        parts.len() >= 1,
        forall|i: int| 0 <= i < parts.len() ==> !(#[trigger] parts[i]).contains('\n'),
        forall|i: int| 0 <= i < parts.len() - 1 ==> strip_cr(#[trigger] parts[i]) == parts[i],
    ensures
        strip_cr(parts.last()) == parts.last() ==> lines_seq(join_seq(parts, seq!['\n']).push('\n'))
            == parts,
        lines_seq(join_seq(parts, seq!['\n'])) == if parts.last().len() == 0 {
            parts.drop_last()
        } else {
            parts
        },
{
    lemma_split_join(parts);
    let j = join_seq(parts, seq!['\n']);
    assert(j.push('\n').drop_last() =~= j);
    let p1 = split_seq(j.push('\n'), '\n');
    assert(p1 == parts.push(Seq::<char>::empty()));
    if strip_cr(parts.last()) == parts.last() {
        assert(parts[parts.len() - 1] == parts.last());
        assert(lines_seq(j.push('\n')) =~= parts);
    }
    assert(lines_seq(j) =~= if parts.last().len() == 0 {
        parts.drop_last()
    } else {
        parts
    });
}

/// Trimming keeps a last character that is not white space.
pub proof fn lemma_trim_keeps_last(s: Seq<char>)
    requires
        s.len() > 0,
        !is_space(s.last()),
    ensures
        trim_seq(s).len() > 0,
        trim_seq(s).last() == s.last(),
{
    lemma_trim_start_keeps_last(s);
}

/// Trimming the start keeps a last character that is not white space.
proof fn lemma_trim_start_keeps_last(s: Seq<char>)
    requires
        s.len() > 0,
        !is_space(s.last()),
    ensures
        trim_start_seq(s).len() > 0,
        trim_start_seq(s).last() == s.last(),
        trim_end_seq(trim_start_seq(s)) == trim_start_seq(s),
    decreases s.len(),
{
    if is_space(s[0]) {
        assert(s.len() > 1);
        assert(s.drop_first().last() == s.last());
        lemma_trim_start_keeps_last(s.drop_first());
    }
}

/// What the first occurrence of `c` says about `s`.
pub proof fn lemma_first_index_facts(s: Seq<char>, c: char)
    ensures
        first_index_of(s, c) matches Some(k) ==> 0 <= k < s.len() && s[k] == c && forall|j: int|
            0 <= j < k ==> s[j] != c,
        first_index_of(s, c) is None ==> !s.contains(c),
    decreases s.len(),
{
    if s.len() > 0 {
        lemma_first_index_facts(s.drop_first(), c);
        if first_index_of(s, c) is None {
            assert(!s.contains(c)) by {
                if s.contains(c) {
                    let w = choose|w: int| 0 <= w < s.len() && s[w] == c;
                    assert(s.drop_first()[w - 1] == c);
                }
            };
        }
        if let Some(k) = first_index_of(s, c) {
            if k > 0 {
                assert forall|j: int| 0 <= j < k implies s[j] != c by {
                    if j > 0 {
                        assert(s[j] == s.drop_first()[j - 1]);
                    }
                }
            }
        }
    }
}

/// The first `c` of `a + b` is at `a.len()` when `a` holds no `c` and `b`
/// starts with one.
pub proof fn lemma_first_index_after(a: Seq<char>, b: Seq<char>, c: char)
    requires
        !a.contains(c),
        b.len() > 0,
        b[0] == c,
    ensures
        first_index_of(a + b, c) == Some(a.len() as int),
    decreases a.len(),
{
    if a.len() == 0 {
        assert(a + b =~= b);
    } else {
        assert((a + b).drop_first() =~= a.drop_first() + b);
        assert(!a.drop_first().contains(c)) by {
            if a.drop_first().contains(c) {
                let i = choose|i: int| 0 <= i < a.drop_first().len() && a.drop_first()[i] == c;
                assert(a[i + 1] == c);
            }
        };
        assert(a[0] != c);
        lemma_first_index_after(a.drop_first(), b, c);
    }
}

/// A word: at least one character, none of them white space.
pub open spec fn is_word(w: Seq<char>) -> bool {
    w.len() > 0 && forall|i: int| 0 <= i < w.len() ==> !is_space(#[trigger] w[i])
}

/// Appending characters that are not white space extends the pending word.
proof fn lemma_words_state_extend(x: Seq<char>, w: Seq<char>)
    requires
        forall|i: int| 0 <= i < w.len() ==> !is_space(#[trigger] w[i]),
    ensures
        words_state(x + w) == (words_state(x).0, words_state(x).1 + w),
    decreases w.len(),
{
    if w.len() == 0 {
        assert(x + w =~= x);
        assert(words_state(x).1 + w =~= words_state(x).1);
    } else {
        let w1 = w.drop_last();
        assert forall|i: int| 0 <= i < w1.len() implies !is_space(#[trigger] w1[i]) by {
            assert(w1[i] == w[i]);
        }
        lemma_words_state_extend(x, w1);
        assert((x + w).drop_last() =~= x + w1);
        assert((x + w).last() == w[w.len() - 1]);
        assert((words_state(x).1 + w1).push(w.last()) =~= words_state(x).1 + w);
    }
}

/// The finished words of a state are words, and the pending one holds no
/// white space.
proof fn lemma_words_state_words(s: Seq<char>)
    ensures
        forall|i: int|
            0 <= i < words_state(s).0.len() ==> is_word(#[trigger] words_state(s).0[i]),
        forall|i: int| 0 <= i < words_state(s).1.len() ==> !is_space(#[trigger] words_state(s).1[i]),
    decreases s.len(),
{
    if s.len() > 0 {
        lemma_words_state_words(s.drop_last());
        let st = words_state(s.drop_last());
        if !is_space(s.last()) {
            assert forall|i: int| 0 <= i < st.1.push(s.last()).len() implies !is_space(
                #[trigger] st.1.push(s.last())[i],
            ) by {
                if i < st.1.len() {
                    assert(st.1.push(s.last())[i] == st.1[i]);
                }
            }
        } else if st.1.len() > 0 {
            assert forall|i: int| 0 <= i < st.0.push(st.1).len() implies is_word(
                #[trigger] st.0.push(st.1)[i],
            ) by {
                if i < st.0.len() {
                    assert(st.0.push(st.1)[i] == st.0[i]);
                }
            }
        }
    }
}

/// Every word of a text is a word.
pub proof fn lemma_words_are_words(s: Seq<char>)
    ensures
        forall|i: int| 0 <= i < words_seq(s).len() ==> is_word(#[trigger] words_seq(s)[i]),
{
    lemma_words_state_words(s);
    let st = words_state(s);
    if st.1.len() > 0 {
        assert forall|i: int| 0 <= i < st.0.push(st.1).len() implies is_word(
            #[trigger] st.0.push(st.1)[i],
        ) by {
            if i < st.0.len() {
                assert(st.0.push(st.1)[i] == st.0[i]);
            }
        }
    }
}

/// Words joined by single spaces: all but the last are finished, the last
/// is pending.
proof fn lemma_words_state_of_join(ws: Seq<Seq<char>>)
    requires
        ws.len() > 0,
        forall|i: int| 0 <= i < ws.len() ==> is_word(#[trigger] ws[i]),
    ensures
        words_state(join_seq(ws, seq![' '])) == (ws.drop_last(), ws.last()),
    decreases ws.len(),
{
    let w = ws.last();
    assert(is_word(ws[ws.len() - 1]));
    if ws.len() == 1 {
        lemma_words_state_extend(Seq::<char>::empty(), w);
        assert(Seq::<char>::empty() + w =~= w);
        assert(ws[0] == w);
        assert(ws.drop_last() =~= Seq::<Seq<char>>::empty());
    } else {
        let front = ws.drop_last();
        assert forall|i: int| 0 <= i < front.len() implies is_word(#[trigger] front[i]) by {
            assert(front[i] == ws[i]);
        }
        lemma_words_state_of_join(front);
        let jf = join_seq(front, seq![' ']);
        let js = jf + seq![' '];
        assert(js.drop_last() =~= jf);
        assert(js.last() == ' ');
        assert(is_space(' '));
        assert(is_word(front[front.len() - 1]));
        assert(words_state(js) == (front.drop_last().push(front.last()), Seq::<char>::empty()));
        assert(front.drop_last().push(front.last()) =~= front);
        lemma_words_state_extend(js, w);
        assert(Seq::<char>::empty() + w =~= w);
        assert(join_seq(ws, seq![' ']) == js + w);
    }
}

/// Re-joining the words of a text with single spaces gives back the same
/// words.
pub proof fn lemma_words_of_joined_words(s: Seq<char>)
    ensures
        words_seq(join_seq(words_seq(s), seq![' '])) == words_seq(s),
{
    let ws = words_seq(s);
    lemma_words_are_words(s);
    if ws.len() == 0 {
        assert(words_state(Seq::<char>::empty()) == (
            Seq::<Seq<char>>::empty(),
            Seq::<char>::empty(),
        ));
    } else {
        lemma_words_state_of_join(ws);
        assert(is_word(ws[ws.len() - 1]));
        assert(ws.drop_last().push(ws.last()) =~= ws);
    }
}

} // verus!

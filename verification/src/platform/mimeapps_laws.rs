//! Laws of the `mimeapps.list` clean-up.
use crate::platform::linux_impl::{
    is_default_section, is_header_line, kept_entries, purge_line, purge_spec,
    purged_lines, section_after, terminated,
};
use crate::text::{
    first_index_of, join_seq, lemma_first_index_after, lemma_first_index_facts,
    lemma_lines_of_join, lemma_split_append_free, lemma_split_nonempty, lemma_split_pieces,
    lemma_trim_keeps_last, lines_seq, split_seq, strip_cr,
};
use vstd::prelude::*;

verus! {

/// A line holding no `\n`.
pub open spec fn clean_line(l: Seq<char>) -> bool {
    !l.contains('\n')
}

/// Every line of `ls` is clean.
pub open spec fn all_clean(ls: Seq<Seq<char>>) -> bool {
    forall|i: int| 0 <= i < ls.len() ==> clean_line(#[trigger] ls[i])
}

/// Kept entries are non-empty, differ from `id`, and come from `pieces`.
proof fn lemma_kept_subset(pieces: Seq<Seq<char>>, id: Seq<char>)
    ensures
        forall|i: int|
            0 <= i < kept_entries(pieces, id).len() ==> (#[trigger] kept_entries(pieces, id)[i]).len()
                > 0 && kept_entries(pieces, id)[i] != id && pieces.contains(
                kept_entries(pieces, id)[i],
            ),
    decreases pieces.len(),
{
    if pieces.len() > 0 {
        let front = pieces.drop_last();
        lemma_kept_subset(front, id);
        let k = kept_entries(front, id);
        assert forall|i: int| 0 <= i < kept_entries(pieces, id).len() implies (
        #[trigger] kept_entries(pieces, id)[i]).len() > 0 && kept_entries(pieces, id)[i] != id
            && pieces.contains(kept_entries(pieces, id)[i]) by {
            let e = kept_entries(pieces, id)[i];
            if i < k.len() {
                assert(e == k[i]);
                let w = choose|w: int| 0 <= w < front.len() && front[w] == e;
                assert(pieces[w] == e);
            } else {
                assert(e == pieces.last());
                assert(pieces[pieces.len() - 1] == e);
            }
        }
    }
}

/// Entries that are all non-empty and differ from `id` are all kept.
proof fn lemma_kept_fixed(s: Seq<Seq<char>>, id: Seq<char>)
    requires
        forall|i: int| 0 <= i < s.len() ==> (#[trigger] s[i]).len() > 0 && s[i] != id,
    ensures
        kept_entries(s, id) == s,
    decreases s.len(),
{
    if s.len() > 0 {
        let front = s.drop_last();
        assert forall|i: int| 0 <= i < front.len() implies (#[trigger] front[i]).len() > 0
            && front[i] != id by {
            assert(front[i] == s[i]);
        }
        lemma_kept_fixed(front, id);
        assert(s[s.len() - 1] == s.last());
        assert(front.push(s.last()) =~= s);
    }
}

/// `terminated` is empty or ends with the terminator.
proof fn lemma_terminated_last(entries: Seq<Seq<char>>, c: char)
    ensures
        entries.len() > 0 ==> terminated(entries, c).len() > 0 && terminated(entries, c).last()
            == c,
        entries.len() == 0 ==> terminated(entries, c) == Seq::<char>::empty(),
{
}

/// `terminated` of clean entries, with a clean terminator, is clean.
proof fn lemma_terminated_clean(entries: Seq<Seq<char>>, c: char)
    requires
        all_clean(entries),
        c != '\n',
    ensures
        clean_line(terminated(entries, c)),
    decreases entries.len(),
{
    if entries.len() > 0 {
        let front = entries.drop_last();
        assert(all_clean(front)) by {
            assert forall|i: int| 0 <= i < front.len() implies clean_line(#[trigger] front[i]) by {
                assert(front[i] == entries[i]);
            }
        };
        lemma_terminated_clean(front, c);
        let t = terminated(front, c);
        let e = entries.last();
        assert(clean_line(e)) by {
            assert(entries[entries.len() - 1] == e);
        };
        let r = t + e.push(c);
        assert forall|x: char| r.contains(x) implies x != '\n' by {
            let w = choose|w: int| 0 <= w < r.len() && r[w] == x;
            if w < t.len() {
                assert(t[w] == x);
            } else if w < t.len() + e.len() {
                assert(e[w - t.len()] == x);
            }
        }
    }
}

/// Splitting entries each followed by `;` gives the entries and a final
/// empty piece.
proof fn lemma_split_terminated(entries: Seq<Seq<char>>)
    requires
        forall|i: int| 0 <= i < entries.len() ==> !(#[trigger] entries[i]).contains(';'),
    ensures
        split_seq(terminated(entries, ';'), ';') == entries.push(Seq::<char>::empty()),
    decreases entries.len(),
{
    if entries.len() == 0 {
        assert(split_seq(Seq::<char>::empty(), ';') =~= entries.push(Seq::<char>::empty()));
    } else {
        let front = entries.drop_last();
        assert forall|i: int| 0 <= i < front.len() implies !(#[trigger] front[i]).contains(';') by {
            assert(front[i] == entries[i]);
        }
        lemma_split_terminated(front);
        let t = terminated(front, ';');
        let e = entries.last();
        assert(!e.contains(';')) by {
            assert(entries[entries.len() - 1] == e);
        };
        lemma_split_append_free(t, e, ';');
        assert(Seq::<char>::empty() + e =~= e);
        let te = t + e;
        assert(split_seq(te, ';') =~= front.push(e));
        assert(terminated(entries, ';') =~= te.push(';'));
        assert(te.push(';').drop_last() =~= te);
        assert(split_seq(te.push(';'), ';') =~= entries.push(Seq::<char>::empty()));
    }
}

/// A purged line purges to itself, keeps whether it is a header (and a
/// header stays as it was), and stays clean.
proof fn lemma_purge_line_fixed(l: Seq<char>, d: bool, id: Seq<char>)
    requires
        clean_line(l),
        purge_line(l, d, id) is Some,
    ensures
        purge_line(purge_line(l, d, id)->0, d, id) == purge_line(l, d, id),
        is_header_line(purge_line(l, d, id)->0) == is_header_line(l),
        is_header_line(l) ==> purge_line(l, d, id)->0 == l,
        clean_line(purge_line(l, d, id)->0),
{
    if !is_header_line(l) {
        lemma_first_index_facts(l, '=');
        match first_index_of(l, '=') {
            Some(k) => {
                let key = l.take(k);
                let value = l.skip(k + 1);
                let pieces = split_seq(value, ';');
                let entries = kept_entries(pieces, id);
                let o = key.push('=') + terminated(entries, ';');
                assert(purge_line(l, d, id) == Some(o));
                assert(!key.contains('=')) by {
                    if key.contains('=') {
                        let w = choose|w: int| 0 <= w < key.len() && key[w] == '=';
                        assert(l[w] == '=');
                    }
                };
                let b = seq!['='] + terminated(entries, ';');
                assert(o =~= key + b);
                lemma_first_index_after(key, b, '=');
                assert(o.take(k) =~= key);
                assert(o.skip(k + 1) =~= terminated(entries, ';'));
                lemma_split_pieces(value, ';');
                lemma_kept_subset(pieces, id);
                assert forall|i: int| 0 <= i < entries.len() implies !(
                #[trigger] entries[i]).contains(';') && clean_line(entries[i]) by {
                    let e = entries[i];
                    let w = choose|w: int| 0 <= w < pieces.len() && pieces[w] == e;
                    if e.contains(';') {
                        let j = choose|j: int| 0 <= j < e.len() && e[j] == ';';
                        assert(pieces[w][j] == ';');
                    }
                    assert forall|x: char| e.contains(x) implies x != '\n' by {
                        let j = choose|j: int| 0 <= j < e.len() && e[j] == x;
                        assert(pieces[w][j] == x);
                        assert(value.contains(x));
                        let m = choose|m: int| 0 <= m < value.len() && value[m] == x;
                        assert(l[k + 1 + m] == x);
                    }
                }
                lemma_split_terminated(entries);
                let pieces2 = split_seq(o.skip(k + 1), ';');
                assert(pieces2 == entries.push(Seq::<char>::empty()));
                assert(pieces2.drop_last() =~= entries);
                lemma_kept_fixed(entries, id);
                assert(kept_entries(pieces2, id) == entries);
                lemma_terminated_last(entries, ';');
                assert(o.len() > 0 && (o.last() == '=' || o.last() == ';')) by {
                    if entries.len() == 0 {
                        assert(o =~= key.push('='));
                    }
                };
                lemma_trim_keeps_last(o);
                assert(!is_header_line(o));
                assert(clean_line(o)) by {
                    assert(all_clean(entries));
                    lemma_terminated_clean(entries, ';');
                    let t = terminated(entries, ';');
                    assert forall|x: char| o.contains(x) implies x != '\n' by {
                        let w = choose|w: int| 0 <= w < o.len() && o[w] == x;
                        if w < k {
                            assert(l[w] == x);
                        } else if w > k {
                            assert(t[w - k - 1] == x);
                        }
                    }
                };
            },
            None => {},
        }
    }
}

/// The entries an assignment line lists: the `;`-separated pieces after its
/// first `=` (none for a line without `=`).
pub open spec fn listed_entries(line: Seq<char>) -> Seq<Seq<char>> {
    match first_index_of(line, '=') {
        Some(k) => split_seq(line.skip(k + 1), ';'),
        None => Seq::<Seq<char>>::empty(),
    }
}

/// A purged line that is not a header lists no entry `id`.
proof fn lemma_purged_line_omits_id(l: Seq<char>, d: bool, id: Seq<char>)
    requires
        id.len() > 0,
        purge_line(l, d, id) is Some,
        !is_header_line(purge_line(l, d, id)->0),
    ensures
        !listed_entries(purge_line(l, d, id)->0).contains(id),
{
    let o = purge_line(l, d, id)->0;
    if is_header_line(l) {
        assert(o == l);
    } else {
        lemma_first_index_facts(l, '=');
        match first_index_of(l, '=') {
            Some(k) => {
                let key = l.take(k);
                let pieces = split_seq(l.skip(k + 1), ';');
                let entries = kept_entries(pieces, id);
                assert(!key.contains('=')) by {
                    if key.contains('=') {
                        let w = choose|w: int| 0 <= w < key.len() && key[w] == '=';
                        assert(l[w] == '=');
                    }
                };
                let b = seq!['='] + terminated(entries, ';');
                assert(o =~= key + b);
                lemma_first_index_after(key, b, '=');
                assert(o.skip(k + 1) =~= terminated(entries, ';'));
                lemma_split_pieces(l.skip(k + 1), ';');
                lemma_kept_subset(pieces, id);
                assert forall|i: int| 0 <= i < entries.len() implies !(
                #[trigger] entries[i]).contains(';') by {
                    let e = entries[i];
                    let w = choose|w: int| 0 <= w < pieces.len() && pieces[w] == e;
                    if e.contains(';') {
                        let j = choose|j: int| 0 <= j < e.len() && e[j] == ';';
                        assert(pieces[w][j] == ';');
                    }
                }
                lemma_split_terminated(entries);
                let listed = entries.push(Seq::<char>::empty());
                assert(listed_entries(o) == listed);
                if listed.contains(id) {
                    let w = choose|w: int| 0 <= w < listed.len() && listed[w] == id;
                    if w < entries.len() {
                        assert(listed[w] == entries[w]);
                    }
                }
            },
            None => {
                assert(o == l);
                assert(listed_entries(o) =~= Seq::<Seq<char>>::empty());
            },
        }
    }
}

/// No remaining assignment lists `id`.
proof fn lemma_purged_lines_omit_id(ls: Seq<Seq<char>>, id: Seq<char>)
    requires
        id.len() > 0,
    ensures
        forall|k: int|
            0 <= k < purged_lines(ls, id).len() && !is_header_line(purged_lines(ls, id)[k])
                ==> !listed_entries(#[trigger] purged_lines(ls, id)[k]).contains(id),
    decreases ls.len(),
{
    if ls.len() > 0 {
        let front = ls.drop_last();
        lemma_purged_lines_omit_id(front, id);
        let p = purged_lines(front, id);
        let d = is_default_section(section_after(front));
        match purge_line(ls.last(), d, id) {
            Some(o) => {
                assert forall|k: int|
                    0 <= k < p.push(o).len() && !is_header_line(p.push(o)[k]) implies !listed_entries(
                    #[trigger] p.push(o)[k],
                ).contains(id) by {
                    if k < p.len() {
                        assert(p.push(o)[k] == p[k]);
                    } else {
                        lemma_purged_line_omits_id(ls.last(), d, id);
                    }
                }
            },
            None => {},
        }
    }
}

/// After the clean-up no association list names the desktop id: no line
/// that the cleaned text is made of (other than a section header) lists
/// `id` among the entries after its `=`.
pub proof fn lemma_purge_removes_desktop_id(contents: Seq<char>, id: Seq<char>)
    requires
        id.len() > 0,
    ensures
        forall|k: int|
            0 <= k < purged_lines(lines_seq(contents), id).len() && !is_header_line(
                purged_lines(lines_seq(contents), id)[k],
            ) ==> !listed_entries(#[trigger] purged_lines(lines_seq(contents), id)[k]).contains(id),
{
    lemma_purged_lines_omit_id(lines_seq(contents), id);
}

/// Purging never lengthens the list of lines.
proof fn lemma_purged_len(ls: Seq<Seq<char>>, id: Seq<char>)
    ensures
        purged_lines(ls, id).len() <= ls.len(),
    decreases ls.len(),
{
    if ls.len() > 0 {
        lemma_purged_len(ls.drop_last(), id);
    }
}

/// Purging purged lines changes nothing; purging keeps the section in force,
/// keeps lines clean, and keeps at least one line of a non-empty list.
proof fn lemma_purged_fixed(ls: Seq<Seq<char>>, id: Seq<char>)
    requires
        all_clean(ls),
    ensures
        purged_lines(purged_lines(ls, id), id) == purged_lines(ls, id),
        section_after(purged_lines(ls, id)) == section_after(ls),
        all_clean(purged_lines(ls, id)),
        ls.len() > 0 ==> purged_lines(ls, id).len() > 0,
    decreases ls.len(),
{
    if ls.len() > 0 {
        let front = ls.drop_last();
        assert(all_clean(front)) by {
            assert forall|i: int| 0 <= i < front.len() implies clean_line(#[trigger] front[i]) by {
                assert(front[i] == ls[i]);
            }
        };
        lemma_purged_fixed(front, id);
        let p = purged_lines(front, id);
        let l = ls.last();
        assert(clean_line(l)) by {
            assert(ls[ls.len() - 1] == l);
        };
        let d = is_default_section(section_after(front));
        match purge_line(l, d, id) {
            Some(o) => {
                lemma_purge_line_fixed(l, d, id);
                assert(purged_lines(ls, id) == p.push(o));
                assert(p.push(o).drop_last() =~= p);
                assert(p.push(o).last() == o);
                assert(purged_lines(p.push(o), id) == p.push(o));
                assert(all_clean(p.push(o))) by {
                    assert forall|i: int| 0 <= i < p.push(o).len() implies clean_line(
                        #[trigger] p.push(o)[i],
                    ) by {
                        if i < p.len() {
                            assert(p.push(o)[i] == p[i]);
                        }
                    }
                };
            },
            None => {
                assert(front.len() > 0) by {
                    if front.len() == 0 {
                        assert(section_after(front) is None);
                    }
                };
            },
        }
    }
}

/// The lines of a text are clean.
proof fn lemma_lines_clean(c: Seq<char>)
    ensures
        all_clean(lines_seq(c)),
{
    let p = split_seq(c, '\n');
    lemma_split_pieces(c, '\n');
    lemma_split_nonempty(c, '\n');
    let ls = lines_seq(c);
    assert forall|i: int| 0 <= i < ls.len() implies clean_line(#[trigger] ls[i]) by {
        let piece = p[i];
        assert forall|x: char| piece.contains(x) implies x != '\n' by {
            let j = choose|j: int| 0 <= j < piece.len() && piece[j] == x;
            assert(p[i][j] == x);
        }
        assert forall|x: char| ls[i].contains(x) implies x != '\n' by {
            let j = choose|j: int| 0 <= j < ls[i].len() && ls[i][j] == x;
            assert(piece[j] == x);
        }
    }
}

/// The end of lines joined by `\n` is the end of the last line.
proof fn lemma_join_last(parts: Seq<Seq<char>>)
    requires
        parts.len() > 0,
        parts.last().len() > 0,
    ensures
        join_seq(parts, seq!['\n']).len() > 0,
        join_seq(parts, seq!['\n']).last() == parts.last().last(),
{
}

/// The line ends in a carriage return.
pub open spec fn ends_in_cr(l: Seq<char>) -> bool {
    l.len() > 0 && l.last() == '\r'
}

/// No line of `ls` that a newline follows ends in `\r`: none but the last,
/// nor the last when `newline_after_last`.
pub open spec fn no_cr_before_newline(ls: Seq<Seq<char>>, newline_after_last: bool) -> bool {
    forall|i: int|
        0 <= i < ls.len() && (i < ls.len() - 1 || newline_after_last) ==> !ends_in_cr(
            #[trigger] ls[i],
        )
}

/// Lines that no `\r` ends before a newline read back unchanged.
proof fn lemma_no_cr_stable(ls: Seq<Seq<char>>, newline_after_last: bool)
    requires
        no_cr_before_newline(ls, newline_after_last),
    ensures
        forall|i: int| 0 <= i < ls.len() - 1 ==> strip_cr(#[trigger] ls[i]) == ls[i],
        newline_after_last && ls.len() > 0 ==> strip_cr(ls.last()) == ls.last(),
{
    assert forall|i: int| 0 <= i < ls.len() - 1 implies strip_cr(#[trigger] ls[i]) == ls[i] by {
        assert(!ends_in_cr(ls[i]));
    }
    if newline_after_last && ls.len() > 0 {
        assert(!ends_in_cr(ls[ls.len() - 1]));
    }
}

/// Cleaning a `mimeapps.list` text a second time changes nothing, unless a
/// line of the cleaned text that a newline follows ends in `\r`: reading
/// lines again would strip that `\r` (`"x\r\r\ny\n"` is such a text).
pub proof fn lemma_purge_idempotent(contents: Seq<char>, id: Seq<char>)
    requires
        no_cr_before_newline(
            purged_lines(lines_seq(contents), id),
            contents.len() > 0 && contents.last() == '\n',
        ),
    ensures
        purge_spec(purge_spec(contents, id), id) == purge_spec(contents, id),
{
    let ls = lines_seq(contents);
    lemma_lines_clean(contents);
    lemma_purged_fixed(ls, id);
    let p = purged_lines(ls, id);
    lemma_no_cr_stable(p, contents.len() > 0 && contents.last() == '\n');
    let t = purge_spec(contents, id);
    let j = join_seq(p, seq!['\n']);
    assert(lines_seq(Seq::<char>::empty()) =~= Seq::<Seq<char>>::empty());
    if contents.len() > 0 && contents.last() == '\n' {
        lemma_split_nonempty(contents.drop_last(), '\n');
        assert(ls.len() > 0);
        assert(t == j.push('\n'));
        lemma_lines_of_join(p);
        assert(lines_seq(t) == p);
    } else {
        assert(t == j);
        if p.len() == 0 {
            assert(t =~= Seq::<char>::empty());
        } else if p.last().len() > 0 {
            lemma_lines_of_join(p);
            lemma_join_last(p);
            assert(p[p.len() - 1] == p.last());
            assert(clean_line(p.last()));
            assert(p.last()[p.last().len() - 1] == p.last().last());
            assert(lines_seq(t) == p);
        } else if p.len() == 1 {
            assert(t == p[0]);
            assert(t =~= Seq::<char>::empty());
        } else {
            let q = p.drop_last();
            lemma_lines_of_join(p);
            assert(lines_seq(t) == q);
            assert(j == join_seq(q, seq!['\n']) + seq!['\n'] + p.last());
            assert(t =~= join_seq(q, seq!['\n']).push('\n'));
            lemma_purged_len(q, id);
            assert(p.drop_last() =~= q);
            assert(p.last() == Seq::<char>::empty());
            assert(p == q.push(Seq::<char>::empty())) by {
                assert(p =~= q.push(p.last()));
            };
            assert(purged_lines(q, id) == q);
        }
    }
}

} // verus!

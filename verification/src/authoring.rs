//! Editing `pack.toml` by hand-written rules: adding and removing entries of
//! its keyed content sections, and the choices `pack add` makes.

use crate::error::{failure, message_of, Error, ErrorKind};
use crate::resolve::{lock_matches, lock_matches_spec};
use crate::spec::{ContentKind, ContentSide, Lockfile, PackSpec};
use crate::text::{
    chars_of, eq_ignore_ascii_case, eq_ignore_case, is_blank, is_white_char, lemma_trim_start_from,
    push_char, push_toml_string, seq_trim, str_eq, string_from, toml_quoted, trim_chars,
    trim_start,
};
use vstd::prelude::*;

verus! {

/// `s` cut into lines, each keeping its `\n` (`str::split_inclusive('\n')`).
pub open spec fn split_lines(s: Seq<char>) -> Seq<Seq<char>>
    decreases s.len(),
{
    if s.len() == 0 {
        Seq::empty()
    } else {
        let ls = split_lines(s.drop_last());
        if ls.len() == 0 || ls.last().len() == 0 || ls.last().last() == '\n' {
            ls.push(seq![s.last()])
        } else {
            ls.update(ls.len() - 1, ls.last().push(s.last()))
        }
    }
}

/// The lines put back together.
pub open spec fn concat(ls: Seq<Seq<char>>) -> Seq<char>
    decreases ls.len(),
{
    if ls.len() == 0 {
        Seq::empty()
    } else {
        concat(ls.drop_last()) + ls.last()
    }
}

/// Splitting into lines loses nothing.
pub proof fn lemma_concat_split_lines(s: Seq<char>)
    ensures
        concat(split_lines(s)) == s,
    decreases s.len(),
{
    if s.len() > 0 {
        let init = s.drop_last();
        lemma_concat_split_lines(init);
        let ls = split_lines(init);
        if ls.len() == 0 || ls.last().len() == 0 || ls.last().last() == '\n' {
            assert(ls.push(seq![s.last()]).drop_last() =~= ls);
            assert(s =~= init + seq![s.last()]);
        } else {
            let nl = ls.update(ls.len() - 1, ls.last().push(s.last()));
            assert(nl.drop_last() =~= ls.drop_last());
            assert(nl.last() == ls.last().push(s.last()));
            assert(concat(nl) == concat(nl.drop_last()) + nl.last());
            assert(concat(ls) == concat(ls.drop_last()) + ls.last());
            assert(init =~= concat(ls.drop_last()) + ls.last());
            assert(s =~= init.push(s.last()));
            assert(s =~= concat(ls.drop_last()) + ls.last().push(s.last()));
        }
    }
}

/// A line that opens one of the content sections `pack remove` edits.
pub open spec fn is_content_header(line: Seq<char>) -> bool {
    let t = seq_trim(line, false);
    t == "[mods]"@ || t == "[client_mods]"@ || t == "[server_mods]"@ || t == "[shaders]"@
}

/// A line that opens some table: `[` after leading white space.
pub open spec fn opens_table(line: Seq<char>) -> bool {
    let t = trim_start(line, false);
    t.len() > 0 && t[0] == '['
}

/// Where the section whose entries start at line `j` ends: the next line
/// that opens a table, or the end.
pub open spec fn section_end(ls: Seq<Seq<char>>, j: int) -> int
    decreases ls.len() - j,
{
    if j >= ls.len() {
        ls.len() as int
    } else if opens_table(ls[j]) {
        j
    } else {
        section_end(ls, j + 1)
    }
}

/// The index of the first `=` in `line`.
pub open spec fn first_eq(line: Seq<char>) -> Option<int> {
    if exists|e: int| 0 <= e < line.len() && line[e] == '=' {
        Some(
            choose|e: int|
                0 <= e < line.len() && line[e] == '=' && forall|j: int| 0 <= j < e ==> line[j] != '=',
        )
    } else {
        None
    }
}

/// The key of an entry line: before its first `=`, trimmed, without quotes.
pub open spec fn entry_key(line: Seq<char>) -> Option<Seq<char>> {
    match first_eq(line) {
        Some(e) => Some(seq_trim(seq_trim(line.subrange(0, e), false), true)),
        None => None,
    }
}

/// The line is an entry for `query`, compared without ASCII case.
pub open spec fn entry_for(line: Seq<char>, query: Seq<char>) -> bool {
    entry_key(line) matches Some(k) && eq_ignore_case(k, seq_trim(query, false))
}

/// The first entry for `query` among lines `k..end`.
pub open spec fn find_in_section(ls: Seq<Seq<char>>, query: Seq<char>, k: int, end: int) -> Option<
    int,
>
    decreases end - k,
{
    if k >= end {
        None
    } else if entry_for(ls[k], query) {
        Some(k)
    } else {
        find_in_section(ls, query, k + 1, end)
    }
}

/// The first entry for `query` in a content section opened at or after
/// line `i`.
pub open spec fn find_entry(ls: Seq<Seq<char>>, query: Seq<char>, i: int) -> Option<int>
    decreases ls.len() - i,
{
    if i >= ls.len() || i < 0 {
        None
    } else if is_content_header(ls[i]) {
        match find_in_section(ls, query, i + 1, section_end(ls, i + 1)) {
            Some(k) => Some(k),
            None => find_entry(ls, query, i + 1),
        }
    } else {
        find_entry(ls, query, i + 1)
    }
}

fn split_lines_exec(s: &Vec<char>) -> (r: Vec<Vec<char>>)
    ensures
        r@.map_values(|l: Vec<char>| l@) == split_lines(s@),
{
    let mut ls: Vec<Vec<char>> = Vec::new();
    let mut i: usize = 0;
    assert(ls@.map_values(|l: Vec<char>| l@) =~= split_lines(s@.subrange(0, 0)));
    while i < s.len()
        invariant
            i <= s@.len(),
            ls@.map_values(|l: Vec<char>| l@) == split_lines(s@.subrange(0, i as int)),
        decreases s@.len() - i,
    {
        let ghost before = ls@.map_values(|l: Vec<char>| l@);
        let ghost pre = s@.subrange(0, i + 1);
        assert(pre.drop_last() =~= s@.subrange(0, i as int));
        assert(pre.last() == s@[i as int]);
        let fresh = ls.len() == 0 || ls[ls.len() - 1].len() == 0 || ls[ls.len() - 1][ls[ls.len() - 1].len() - 1] == '\n';
        if fresh {
            let mut l: Vec<char> = Vec::new();
            l.push(s[i]);
            ls.push(l);
            assert(ls@.map_values(|l: Vec<char>| l@) =~= before.push(seq![s@[i as int]]));
        } else {
            let mut l = ls.pop().unwrap();
            l.push(s[i]);
            ls.push(l);
            assert(ls@.map_values(|l: Vec<char>| l@) =~= before.update(
                before.len() - 1,
                before.last().push(s@[i as int]),
            ));
        }
        i = i + 1;
    }
    assert(s@.subrange(0, i as int) =~= s@);
    ls
}

fn chars_eq_str(v: &Vec<char>, lit: &str) -> (r: bool)
    ensures
        r == (v@ == lit@),
{
    let s = string_from(v.as_slice());
    str_eq(s.as_str(), lit)
}

fn is_content_header_exec(line: &Vec<char>) -> (r: bool)
    ensures
        r == is_content_header(line@),
{
    let t = trim_chars(line.as_slice(), false);
    chars_eq_str(&t, "[mods]") || chars_eq_str(&t, "[client_mods]") || chars_eq_str(&t, "[server_mods]")
        || chars_eq_str(&t, "[shaders]")
}

fn opens_table_exec(line: &Vec<char>) -> (r: bool)
    ensures
        r == opens_table(line@),
{
    let mut a: usize = 0;
    while a < line.len() && is_white_char(line[a])
        invariant
            a <= line@.len(),
            forall|j: int| 0 <= j < a ==> crate::text::is_white(line@[j]),
        decreases line@.len() - a,
    {
        a = a + 1;
    }
    proof {
        lemma_trim_start_from(line@, false, a as int);
    }
    let ghost t = line@.subrange(a as int, line@.len() as int);
    if a < line.len() {
        assert(t[0] == line@[a as int]);
        assert(trim_start(line@, false) == t);
        line[a] == '['
    } else {
        assert(t.len() == 0);
        assert(trim_start(t, false) == t);
        false
    }
}

fn entry_for_exec(line: &Vec<char>, query: &Vec<char>) -> (r: bool)
    ensures
        r == (entry_key(line@) matches Some(k) && eq_ignore_case(k, query@)),
{
    let mut e: usize = 0;
    while e < line.len() && line[e] != '='
        invariant
            e <= line@.len(),
            forall|j: int| 0 <= j < e ==> line@[j] != '=',
        decreases line@.len() - e,
    {
        e = e + 1;
    }
    if e == line.len() {
        assert(!(exists|x: int| 0 <= x < line@.len() && line@[x] == '='));
        return false;
    }
    assert(first_eq(line@) == Some(e as int)) by {
        let c = choose|x: int|
            0 <= x < line@.len() && line@[x] == '=' && forall|j: int| 0 <= j < x ==> line@[j] != '=';
        assert(line@[e as int] == '=');
        if c < e {
        } else if c > e {
        }
    }
    let whole = line.as_slice();
    let before = &whole[0..e];
    assert(before@ == line@.subrange(0, e as int));
    let t1 = trim_chars(before, false);
    let t2 = trim_chars(t1.as_slice(), true);
    eq_ignore_ascii_case(t2.as_slice(), query.as_slice())
}

/// Removes the entry for `query` from the first `[mods]`, `[client_mods]`,
/// `[server_mods]` or `[shaders]` section that has one, comparing keys without ASCII case
/// and without quotes; returns the text and whether a line was removed. An
/// entry is a line of the section with a `=`; a section runs to the next
/// line that opens a table.
#[verifier::loop_isolation(false)]
#[verifier::spinoff_prover]
#[verifier::rlimit(40)]
pub fn remove_entry(text: &str, query: &str) -> (r: (String, bool))
    ensures
        ({
            let ls = split_lines(text@);
            match find_entry(ls, query@, 0) {
                Some(k) => r.1 && r.0@ == concat(ls.remove(k)),
                None => !r.1 && r.0@ == text@,
            }
        }),
{
    let chars = chars_of(text);
    let lines = split_lines_exec(&chars);
    let ghost ls = lines@.map_values(|l: Vec<char>| l@);
    let q = trimmed(query);
    let mut i: usize = 0;
    while i < lines.len()
        invariant
            i <= lines@.len(),
            find_entry(ls, query@, 0) == find_entry(ls, query@, i as int),
        decreases lines@.len() - i,
    {
        assert(ls[i as int] == lines@[i as int]@);
        if is_content_header_exec(&lines[i]) {
            let mut end = i + 1;
            while end < lines.len() && !opens_table_exec(&lines[end])
                invariant
                    i < end <= lines@.len(),
                    section_end(ls, i + 1) == section_end(ls, end as int),
                decreases lines@.len() - end,
            {
                assert(ls[end as int] == lines@[end as int]@);
                end = end + 1;
            }
            if end < lines.len() {
                assert(ls[end as int] == lines@[end as int]@);
            }
            let mut k = i + 1;
            while k < end
                invariant
                    i < k <= end,
                    find_in_section(ls, query@, i + 1, end as int) == find_in_section(
                        ls,
                        query@,
                        k as int,
                        end as int,
                    ),
                decreases end - k,
            {
                assert(ls[k as int] == lines@[k as int]@);
                if entry_for_exec(&lines[k], &q) {
                    let mut out = String::new();
                    let mut j: usize = 0;
                    let ghost rest = ls.remove(k as int);
                    while j < lines.len()
                        invariant
                            j <= lines@.len(),
                            k < lines@.len(),
                            out@ == concat(
                                if j <= k {
                                    ls.subrange(0, j as int)
                                } else {
                                    ls.remove(k as int).subrange(0, j - 1)
                                },
                            ),
                        decreases lines@.len() - j,
                    {
                        if j != k {
                            let ghost before = out@;
                            let s = string_from(lines[j].as_slice());
                            out.append(s.as_str());
                            proof {
                                if j < k {
                                    assert(ls.subrange(0, j + 1).drop_last() =~= ls.subrange(0, j as int));
                                } else {
                                    let rr = ls.remove(k as int);
                                    assert(rr.subrange(0, j as int).drop_last() =~= rr.subrange(0, j - 1));
                                    assert(rr[j - 1] == ls[j as int]);
                                }
                            }
                        } else {
                            proof {
                                assert(ls.remove(k as int).subrange(0, j as int) =~= ls.subrange(0, j as int));
                            }
                        }
                        j = j + 1;
                    }
                    assert(ls.remove(k as int).subrange(0, j - 1) =~= ls.remove(k as int));
                    return (out, true);
                }
                k = k + 1;
            }
        }
        i = i + 1;
    }
    proof {
        crate::text::lemma_trim_start_from(Seq::<char>::empty(), false, 0);
    }
    (text.to_owned(), false)
}

/// `s` trimmed of white space, as characters.
fn trimmed(s: &str) -> (r: Vec<char>)
    ensures
        r@ == seq_trim(s@, false),
{
    crate::text::trimmed(s)
}

} // verus!

verus! {

// ------------------------------------------------------------ adding entries

/// `pat` occurs in `s` at `i`.
pub open spec fn occurs_at(s: Seq<char>, pat: Seq<char>, i: int) -> bool {
    0 <= i && i + pat.len() <= s.len() && s.subrange(i, i + pat.len()) == pat
}

/// The first place at or after `i` where the non-empty `pat` occurs in `s`
/// (`str::find` on the rest of `s`).
pub open spec fn find_from(s: Seq<char>, pat: Seq<char>, i: int) -> Option<int>
    decreases s.len() - i,
{
    if i < 0 || i >= s.len() || i + pat.len() > s.len() {
        None
    } else if occurs_at(s, pat, i) {
        Some(i)
    } else {
        find_from(s, pat, i + 1)
    }
}

fn occurs_at_exec(s: &Vec<char>, pat: &Vec<char>, i: usize) -> (r: bool)
    requires
        i + pat@.len() <= s@.len(),
    ensures
        r == occurs_at(s@, pat@, i as int),
{
    let mut j: usize = 0;
    while j < pat.len()
        invariant
            i + pat.len() <= s.len(),
            j <= pat@.len(),
            forall|k: int| 0 <= k < j ==> s@[i + k] == pat@[k],
        decreases pat@.len() - j,
    {
        if s[i + j] != pat[j] {
            assert(s@.subrange(i as int, i + pat@.len())[j as int] != pat@[j as int]);
            return false;
        }
        j = j + 1;
    }
    assert(s@.subrange(i as int, i + pat@.len()) =~= pat@);
    true
}

/// Where `find_from` finds the pattern, it occurs.
pub proof fn lemma_find_from_occurs(s: Seq<char>, pat: Seq<char>, i: int)
    ensures
        find_from(s, pat, i) matches Some(k) ==> occurs_at(s, pat, k) && i <= k < s.len(),
    decreases s.len() - i,
{
    if !(i < 0 || i >= s.len() || i + pat.len() > s.len()) && !occurs_at(s, pat, i) {
        lemma_find_from_occurs(s, pat, i + 1);
    }
}

pub(crate) fn find_from_exec(s: &Vec<char>, pat: &Vec<char>, i: usize) -> (r: Option<usize>)
    ensures
        match r {
            Some(k) => find_from(s@, pat@, i as int) == Some(k as int),
            None => find_from(s@, pat@, i as int) is None,
        },
        r matches Some(k) ==> k < s.len() && k + pat.len() <= s.len(),
{
    proof {
        lemma_find_from_occurs(s@, pat@, i as int);
    }
    let mut j = i;
    while j < s.len() && pat.len() <= s.len() - j
        invariant
            i <= j,
            find_from(s@, pat@, i as int) == find_from(s@, pat@, j as int),
        decreases s@.len() - j,
    {
        if occurs_at_exec(s, pat, j) {
            return Some(j);
        }
        j = j + 1;
    }
    None
}

/// The section of `pack.toml` that takes an entry of a kind and side.
pub open spec fn section_of(kind: ContentKind, side: ContentSide) -> Seq<char> {
    match kind {
        ContentKind::Mod => match side {
            ContentSide::Both => "mods"@,
            ContentSide::Client => "client_mods"@,
            ContentSide::Server => "server_mods"@,
        },
        ContentKind::Shader => "shaders"@,
    }
}

pub fn section_name(kind: ContentKind, side: ContentSide) -> (r: &'static str)
    ensures
        r@ == section_of(kind, side),
{
    match kind {
        ContentKind::Mod => match side {
            ContentSide::Both => "mods",
            ContentSide::Client => "client_mods",
            ContentSide::Server => "server_mods",
        },
        ContentKind::Shader => "shaders",
    }
}

/// The line that opens a section: `[name]` and a newline.
pub open spec fn header_line(section: Seq<char>) -> Seq<char> {
    seq!['['] + section + seq![']', '\n']
}

/// The entry line `project = "version"`.
pub open spec fn entry_line(project: Seq<char>, version: Seq<char>) -> Seq<char> {
    project + " = "@ + toml_quoted(version) + seq!['\n']
}

/// `text` with `line` added to the section that `header` opens: before the
/// next line that opens a table, or at the end; where no such section is
/// there, the section is appended after a blank line.
pub open spec fn inserted(text: Seq<char>, header: Seq<char>, line: Seq<char>) -> Seq<char> {
    match find_from(text, header, 0) {
        Some(h) => {
            let c = h + header.len();
            let at = match find_from(text, seq!['\n', '['], c) {
                Some(o) => o + 1,
                None => text.len() as int,
            };
            text.subrange(0, at) + line + text.subrange(at, text.len() as int)
        },
        None => {
            let ended = if text.len() > 0 && text.last() == '\n' {
                text
            } else {
                text.push('\n')
            };
            ended + seq!['\n'] + header + line
        },
    }
}

fn append_chars(out: &mut String, v: &[char])
    ensures
        final(out)@ == old(out)@ + v@,
{
    let mut i: usize = 0;
    while i < v.len()
        invariant
            i <= v@.len(),
            out@ == old(out)@ + v@.subrange(0, i as int),
        decreases v@.len() - i,
    {
        push_char(out, v[i]);
        i = i + 1;
        assert(out@ =~= old(out)@ + v@.subrange(0, i as int));
    }
    assert(v@.subrange(0, v@.len() as int) =~= v@);
}

/// Adds the entry `project = "version"` to the section of `pack.toml` that
/// takes content of `kind` on `side`.
pub fn insert_entry(
    text: &str,
    kind: ContentKind,
    project: &str,
    version: &str,
    side: ContentSide,
) -> (r: String)
    ensures
        r@ == inserted(
            text@,
            header_line(section_of(kind, side)),
            entry_line(project@, version@),
        ),
{
    let section = section_name(kind, side);
    let mut header = String::new();
    push_char(&mut header, '[');
    header.append(section);
    push_char(&mut header, ']');
    push_char(&mut header, '\n');
    assert(header@ =~= header_line(section_of(kind, side)));
    let mut line = String::new();
    line.append(project);
    line.append(" = ");
    push_toml_string(&mut line, version);
    push_char(&mut line, '\n');
    proof {
        reveal_strlit(" = ");
    }
    assert(line@ =~= entry_line(project@, version@));
    let t = chars_of(text);
    let h = chars_of(header.as_str());
    let ghost hl = header@;
    let ghost ll = line@;
    match find_from_exec(&t, &h, 0) {
        Some(start) => {
            let c = start + h.len();
            let mut nl: Vec<char> = Vec::new();
            nl.push('\n');
            nl.push('[');
            assert(nl@ =~= seq!['\n', '[']);
            let at = match find_from_exec(&t, &nl, c) {
                Some(o) => o + 1,
                None => t.len(),
            };
            let whole = t.as_slice();
            let head = &whole[0..at];
            let tail = &whole[at..t.len()];
            assert(head@ == text@.subrange(0, at as int));
            assert(tail@ == text@.subrange(at as int, text@.len() as int));
            let mut out = String::new();
            append_chars(&mut out, head);
            out.append(line.as_str());
            append_chars(&mut out, tail);
            assert(find_from(text@, hl, 0) == Some(start as int));
            assert(out@ =~= text@.subrange(0, at as int) + ll + text@.subrange(at as int, text@.len() as int));
            out
        },
        None => {
            let mut out = String::new();
            out.append(text);
            if !(t.len() > 0 && t[t.len() - 1] == '\n') {
                push_char(&mut out, '\n');
            }
            push_char(&mut out, '\n');
            out.append(header.as_str());
            out.append(line.as_str());
            assert(out@ =~= inserted(text@, hl, ll));
            out
        },
    }
}

} // verus!

verus! {

// ------------------------------------------------------------ `pack add`

/// How `pack add` files a project: as a mod or a shader, and on which side
/// (found out from Modrinth where none is given).
#[derive(Debug, Clone, Copy, PartialEq, Eq)]
pub struct AddOptions {
    pub kind: ContentKind,
    pub side: Option<ContentSide>,
}

impl Default for AddOptions {
    fn default() -> (r: Self)
        ensures
            r.kind == ContentKind::Mod,
            r.side is None,
    {
        AddOptions { kind: ContentKind::Mod, side: None }
    }
}

/// What Modrinth answered for one `pack add`: the project that the query
/// names, its newest compatible version where one was asked for, and the
/// side that the project declares.
#[derive(Debug, Clone)]
pub struct AddLookup {
    pub project: String,
    pub latest_version: Option<String>,
    pub detected_side: ContentSide,
}

/// The ids of the pack's content entries.
pub open spec fn ids_view(ids: Seq<String>) -> Seq<Seq<char>> {
    ids.map_values(|s: String| s@)
}

/// Some entry's id equals `query` up to ASCII case.
pub open spec fn names_content(ids: Seq<Seq<char>>, query: Seq<char>) -> bool {
    exists|i: int| 0 <= i < ids.len() && eq_ignore_case(ids[i], query)
}

/// Refuses a query that already names an entry of the pack.
pub fn check_absent(content_ids: &Vec<String>, query: &str) -> (r: Result<(), Error>)
    ensures
        r is Ok <==> !names_content(ids_view(content_ids@), query@),
        r matches Err(e) ==> e@ == failure(ErrorKind::AlreadyInPack, seq![seq_trim(query@, false)]),
{
    let q = chars_of(query);
    let mut i: usize = 0;
    while i < content_ids.len()
        invariant
            q@ == query@,
            i <= content_ids@.len(),
            forall|j: int| 0 <= j < i ==> !eq_ignore_case(ids_view(content_ids@)[j], query@),
        decreases content_ids@.len() - i,
    {
        let id = chars_of(content_ids[i].as_str());
        if eq_ignore_ascii_case(id.as_slice(), q.as_slice()) {
            assert(eq_ignore_case(ids_view(content_ids@)[i as int], query@));
            let t = trimmed(query);
            return Err(Error::new1(ErrorKind::AlreadyInPack, string_from(t.as_slice())));
        }
        i = i + 1;
    }
    Ok(())
}

/// A version was asked for: given and not blank.
pub open spec fn version_given(requested: Option<&str>) -> bool {
    requested matches Some(v) && !crate::text::seq_is_blank(v@)
}

/// The version asked for, where one was; otherwise Modrinth's newest
/// compatible version is wanted.
pub fn explicit_version(requested: Option<&str>) -> (r: Option<String>)
    ensures
        r is Some <==> version_given(requested),
        r matches Some(v) ==> requested matches Some(q) && v@ == q@,
{
    match requested {
        Some(v) => if is_blank(v) {
            None
        } else {
            Some(v.to_owned())
        },
        None => None,
    }
}

/// The side an added entry gets: a shader is always client-side; otherwise
/// the side asked for, else the side Modrinth declares.
pub open spec fn chosen_side(options: AddOptions, detected: ContentSide) -> ContentSide {
    if options.kind == ContentKind::Shader {
        ContentSide::Client
    } else {
        match options.side {
            Some(s) => s,
            None => detected,
        }
    }
}

pub fn choose_side(options: AddOptions, detected: ContentSide) -> (r: ContentSide)
    ensures
        r == chosen_side(options, detected),
{
    if options.kind == ContentKind::Shader {
        ContentSide::Client
    } else {
        match options.side {
            Some(s) => s,
            None => detected,
        }
    }
}

/// Some entry's id is exactly `project`.
pub open spec fn has_id(ids: Seq<Seq<char>>, project: Seq<char>) -> bool {
    exists|i: int| 0 <= i < ids.len() && ids[i] == project
}

/// Refuses a project that is already an entry of the pack.
pub fn check_project_absent(content_ids: &Vec<String>, project: &str) -> (r: Result<(), Error>)
    ensures
        r is Ok <==> !has_id(ids_view(content_ids@), project@),
        r matches Err(e) ==> e@ == failure(ErrorKind::AlreadyInPack, seq![project@]),
{
    let mut i: usize = 0;
    while i < content_ids.len()
        invariant
            i <= content_ids@.len(),
            forall|j: int| 0 <= j < i ==> ids_view(content_ids@)[j] != project@,
        decreases content_ids@.len() - i,
    {
        if str_eq(content_ids[i].as_str(), project) {
            assert(ids_view(content_ids@)[i as int] == project@);
            return Err(Error::new1(ErrorKind::AlreadyInPack, project.to_owned()));
        }
        i = i + 1;
    }
    Ok(())
}

/// The side a Modrinth project declares for itself: a shader is
/// client-side; a mod that the server does not support is client-only, one
/// that the client does not support is server-only, any other loads on both.
pub open spec fn declared(kind: ContentKind, client_side: Seq<char>, server_side: Seq<char>) -> ContentSide {
    if kind == ContentKind::Shader {
        ContentSide::Client
    } else if server_side == "unsupported"@ {
        ContentSide::Client
    } else if client_side == "unsupported"@ {
        ContentSide::Server
    } else {
        ContentSide::Both
    }
}

pub fn declared_side(kind: ContentKind, client_side: &str, server_side: &str) -> (r: ContentSide)
    ensures
        r == declared(kind, client_side@, server_side@),
{
    if kind == ContentKind::Shader {
        ContentSide::Client
    } else if str_eq(server_side, "unsupported") {
        ContentSide::Client
    } else if str_eq(client_side, "unsupported") {
        ContentSide::Server
    } else {
        ContentSide::Both
    }
}

/// The version that an added entry pins.
pub open spec fn chosen_version(requested: Option<&str>, latest: Option<String>) -> Seq<char> {
    match requested {
        Some(v) => if !crate::text::seq_is_blank(v@) {
            v@
        } else {
            latest.unwrap()@
        },
        None => latest.unwrap()@,
    }
}

/// `pack add`: refuses a query or a project that the pack already has,
/// then files `project = "version"` in the section for the entry's kind and
/// side. Returns the project and the new text of `pack.toml`.
pub fn add(
    text: &str,
    content_ids: &Vec<String>,
    query: &str,
    requested_version: Option<&str>,
    options: AddOptions,
    lookup: &AddLookup,
) -> (r: Result<(String, String), Error>)
    requires
        !version_given(requested_version) ==> lookup.latest_version is Some,
    ensures
        ({
            let ids = ids_view(content_ids@);
            match r {
                Ok((project, updated)) => {
                    &&& !names_content(ids, query@)
                    &&& !has_id(ids, lookup.project@)
                    &&& project@ == lookup.project@
                    &&& updated@ == inserted(
                        text@,
                        header_line(section_of(options.kind, chosen_side(options, lookup.detected_side))),
                        entry_line(
                            lookup.project@,
                            chosen_version(requested_version, lookup.latest_version),
                        ),
                    )
                },
                Err(e) => if names_content(ids, query@) {
                    e@ == failure(ErrorKind::AlreadyInPack, seq![seq_trim(query@, false)])
                } else {
                    has_id(ids, lookup.project@) && e@ == failure(
                        ErrorKind::AlreadyInPack,
                        seq![lookup.project@],
                    )
                },
            }
        }),
{
    if let Err(e) = check_absent(content_ids, query) {
        return Err(e);
    }
    if let Err(e) = check_project_absent(content_ids, lookup.project.as_str()) {
        return Err(e);
    }
    let version = match explicit_version(requested_version) {
        Some(v) => v,
        None => match &lookup.latest_version {
            Some(v) => v.clone(),
            None => String::new(),
        },
    };
    let side = choose_side(options, lookup.detected_side);
    let updated = insert_entry(text, options.kind, lookup.project.as_str(), version.as_str(), side);
    Ok((lookup.project.clone(), updated))
}

/// `pack remove`: the text of `pack.toml` without the entry for `query`,
/// or an error where no content section has one.
pub fn remove(text: &str, query: &str) -> (r: Result<String, Error>)
    ensures
        ({
            let ls = split_lines(text@);
            match find_entry(ls, query@, 0) {
                Some(k) => r matches Ok(t) && t@ == concat(ls.remove(k)),
                None => r matches Err(e) && e@ == failure(ErrorKind::NotInPack, seq![query@]),
            }
        }),
{
    let (updated, removed) = remove_entry(text, query);
    if !removed {
        return Err(Error::new1(ErrorKind::NotInPack, query.to_owned()));
    }
    Ok(updated)
}

} // verus!

verus! {

// ------------------------------------------------ `pack install`, `pack run`

/// What `pack install` did: how many files the lock pins and where the
/// launcher overlay was written.
#[derive(Debug, Clone)]
pub struct InstallReport {
    pub files: usize,
    pub generated: String,
}

/// A lock that `pack install` can keep: one that loaded and was made from
/// the current spec. Any other lock is resolved afresh.
pub fn reusable_lock(spec: &PackSpec, loaded: Result<Lockfile, Error>) -> (r: Option<Lockfile>)
    ensures
        match loaded {
            Ok(lock) => if lock_matches(*spec, lock) {
                r == Some(lock)
            } else {
                r is None
            },
            Err(_) => r is None,
        },
{
    match loaded {
        Ok(lock) => if lock_matches_spec(spec, &lock) {
            Some(lock)
        } else {
            None
        },
        Err(_) => None,
    }
}

/// The report of an install from `lock` whose overlay went to `generated`.
pub fn install(lock: &Lockfile, generated: String) -> (r: InstallReport)
    ensures
        r.files == lock.file@.len(),
        r.generated == generated,
{
    InstallReport { files: lock.file.len(), generated }
}

/// The lock that `pack run` starts from: it must have loaded and match the
/// current spec.
pub fn installed_lock(spec: &PackSpec, loaded: Result<Lockfile, Error>) -> (r: Result<
    Lockfile,
    Error,
>)
    ensures
        match loaded {
            Err(e) => r matches Err(x) && x@ == failure(
                ErrorKind::NotInstalled,
                seq![message_of(e@)],
            ),
            Ok(lock) => if lock_matches(*spec, lock) {
                r == Ok::<Lockfile, Error>(lock)
            } else {
                r matches Err(x) && x@ == failure(ErrorKind::LockChanged, seq![])
            },
        },
{
    match loaded {
        Err(e) => Err(Error::new1(ErrorKind::NotInstalled, e.message())),
        Ok(lock) => if lock_matches_spec(spec, &lock) {
            Ok(lock)
        } else {
            Err(Error::new0(ErrorKind::LockChanged))
        },
    }
}

/// Which game `pack run` starts.
#[derive(Debug, Clone, Copy, PartialEq, Eq)]
pub enum RunTarget {
    Client,
    Server,
    Pair,
}

/// A program to start in the pack's directory, with its arguments.
#[derive(Debug, Clone)]
pub struct RunPlan {
    pub program: String,
    pub args: Vec<String>,
}

/// The program and arguments that `pack run` starts for `target`: modstage
/// for one side, with the overlay at `config`; the TeaKit pair runner for
/// both.
pub open spec fn run_command(lock: Lockfile, target: RunTarget, config: Seq<char>) -> (
    Seq<char>,
    Seq<Seq<char>>,
) {
    match target {
        RunTarget::Client => (
            "modstage"@,
            seq![
                "--config"@,
                config,
                "run"@,
                "client"@,
                lock.pack.slug@ + "-client"@,
                "--timeout"@,
                "180s"@,
            ],
        ),
        RunTarget::Server => (
            "modstage"@,
            seq![
                "--config"@,
                config,
                "run"@,
                "server"@,
                lock.pack.slug@ + "-server"@,
                "--timeout"@,
                "180s"@,
            ],
        ),
        RunTarget::Pair => (
            "./teakitw"@,
            seq![
                "pair"@,
                "--no-sync-sdk"@,
                "--node"@,
                lock.pack.minecraft@ + "-"@ + lock.pack.loader@,
                "--modstage-config"@,
                "generated/modstage.toml"@,
                "--modstage-instance"@,
                lock.pack.slug@ + "-pair"@,
                "--test-file"@,
                "tests/teakit/startup.test.ts"@,
                "--timeout"@,
                "360"@,
                "--report"@,
                "build/teakit/startup.json"@,
            ],
        ),
    }
}

fn joined(a: &str, b: &str) -> (r: String)
    ensures
        r@ == a@ + b@,
{
    let mut s = a.to_owned();
    s.append(b);
    s
}

/// `pack run`: what to start for `target` once the lock is installed and
/// every file is cached.
pub fn run(lock: &Lockfile, target: RunTarget, config: &str) -> (r: RunPlan)
    ensures
        r.program@ == run_command(*lock, target, config@).0,
        r.args@.map_values(|s: String| s@) == run_command(*lock, target, config@).1,
{
    let mut args: Vec<String> = Vec::new();
    match target {
        RunTarget::Client | RunTarget::Server => {
            let (side, suffix) = match target {
                RunTarget::Client => ("client", "-client"),
                _ => ("server", "-server"),
            };
            args.push("--config".to_owned());
            args.push(config.to_owned());
            args.push("run".to_owned());
            args.push(side.to_owned());
            args.push(joined(lock.pack.slug.as_str(), suffix));
            args.push("--timeout".to_owned());
            args.push("180s".to_owned());
            let plan = RunPlan { program: "modstage".to_owned(), args };
            assert(plan.args@.map_values(|s: String| s@) =~= run_command(*lock, target, config@).1);
            plan
        },
        RunTarget::Pair => {
            let node = joined(joined(lock.pack.minecraft.as_str(), "-").as_str(), lock.pack.loader.as_str());
            args.push("pair".to_owned());
            args.push("--no-sync-sdk".to_owned());
            args.push("--node".to_owned());
            args.push(node);
            args.push("--modstage-config".to_owned());
            args.push("generated/modstage.toml".to_owned());
            args.push("--modstage-instance".to_owned());
            args.push(joined(lock.pack.slug.as_str(), "-pair"));
            args.push("--test-file".to_owned());
            args.push("tests/teakit/startup.test.ts".to_owned());
            args.push("--timeout".to_owned());
            args.push("360".to_owned());
            args.push("--report".to_owned());
            args.push("build/teakit/startup.json".to_owned());
            let plan = RunPlan { program: "./teakitw".to_owned(), args };
            assert(plan.args@.map_values(|s: String| s@) =~= run_command(*lock, target, config@).1);
            plan
        },
    }
}

} // verus!

verus! {

/// The kind and side of the entries of a keyed content section of
/// `pack.toml`: `[mods]` load on both sides, `[client_mods]` stay off the
/// server, `[server_mods]` stay off the client, `[shaders]` are client
/// shader packs.
pub open spec fn section_content(name: Seq<char>) -> Option<(ContentKind, ContentSide)> {
    if name == "mods"@ {
        Some((ContentKind::Mod, ContentSide::Both))
    } else if name == "client_mods"@ {
        Some((ContentKind::Mod, ContentSide::Client))
    } else if name == "server_mods"@ {
        Some((ContentKind::Mod, ContentSide::Server))
    } else if name == "shaders"@ {
        Some((ContentKind::Shader, ContentSide::Client))
    } else {
        None
    }
}

pub fn content_section(name: &str) -> (r: Option<(ContentKind, ContentSide)>)
    ensures
        r == section_content(name@),
{
    if str_eq(name, "mods") {
        Some((ContentKind::Mod, ContentSide::Both))
    } else if str_eq(name, "client_mods") {
        Some((ContentKind::Mod, ContentSide::Client))
    } else if str_eq(name, "server_mods") {
        Some((ContentKind::Mod, ContentSide::Server))
    } else if str_eq(name, "shaders") {
        Some((ContentKind::Shader, ContentSide::Client))
    } else {
        None
    }
}

/// An entry that `pack add` files is read back from its section with the
/// kind and side it was filed for.
pub proof fn law_added_entries_keep_kind_and_side(options: AddOptions, detected: ContentSide)
    ensures
        section_content(section_of(options.kind, chosen_side(options, detected))) == Some(
            (options.kind, chosen_side(options, detected)),
        ),
{
    reveal_strlit("mods");
    reveal_strlit("client_mods");
    reveal_strlit("server_mods");
    reveal_strlit("shaders");
    assert("client_mods"@.len() != "mods"@.len());
    assert("shaders"@.len() != "mods"@.len());
    assert("shaders"@.len() != "client_mods"@.len());
    assert("shaders"@.len() == "server_mods"@.len() - 4);
    assert("server_mods"@.len() != "mods"@.len());
    assert("server_mods"@.len() == "client_mods"@.len());
    assert("server_mods"@[0] != "client_mods"@[0]);
}

} // verus!

verus! {

proof fn lemma_concat_append(a: Seq<Seq<char>>, b: Seq<Seq<char>>)
    ensures
        concat(a + b) == concat(a) + concat(b),
    decreases b.len(),
{
    if b.len() == 0 {
        assert(a + b =~= a);
        assert(concat(b) =~= Seq::<char>::empty());
        assert(concat(a) + concat(b) =~= concat(a));
    } else {
        lemma_concat_append(a, b.drop_last());
        assert((a + b).drop_last() =~= a + b.drop_last());
        assert((a + b).last() == b.last());
        assert(concat(a) + concat(b) =~= concat(a) + concat(b.drop_last()) + b.last());
    }
}

proof fn lemma_find_in_section_found(ls: Seq<Seq<char>>, query: Seq<char>, k: int, end: int)
    requires
        0 <= k,
        end <= ls.len(),
    ensures
        find_in_section(ls, query, k, end) matches Some(j) ==> k <= j < end && entry_for(
            ls[j],
            query,
        ),
    decreases end - k,
{
    if k < end && !entry_for(ls[k], query) {
        lemma_find_in_section_found(ls, query, k + 1, end);
    }
}

proof fn lemma_section_end_bounds(ls: Seq<Seq<char>>, j: int)
    requires
        0 <= j,
    ensures
        section_end(ls, j) <= ls.len(),
    decreases ls.len() - j,
{
    if j < ls.len() && !opens_table(ls[j]) {
        lemma_section_end_bounds(ls, j + 1);
    }
}

proof fn lemma_find_entry_found(ls: Seq<Seq<char>>, query: Seq<char>, i: int)
    ensures
        find_entry(ls, query, i) matches Some(k) ==> 0 <= k < ls.len() && entry_for(ls[k], query),
    decreases ls.len() - i,
{
    if !(i >= ls.len() || i < 0) {
        if is_content_header(ls[i]) {
            lemma_section_end_bounds(ls, i + 1);
            lemma_find_in_section_found(ls, query, i + 1, section_end(ls, i + 1));
        }
        lemma_find_entry_found(ls, query, i + 1);
    }
}

/// `pack remove` takes away exactly one line, an entry for the project, and
/// keeps every other character of `pack.toml` in place: the text is the
/// part before that line, the line, and the part after it, and the result
/// is the two parts joined.
pub proof fn law_removal_takes_one_line(text: Seq<char>, query: Seq<char>)
    requires
        find_entry(split_lines(text), query, 0) is Some,
    ensures
        ({
            let ls = split_lines(text);
            let k = find_entry(ls, query, 0)->Some_0;
            &&& entry_for(ls[k], query)
            &&& text == concat(ls.subrange(0, k)) + ls[k] + concat(ls.subrange(k + 1, ls.len() as int))
            &&& concat(ls.remove(k)) == concat(ls.subrange(0, k)) + concat(
                ls.subrange(k + 1, ls.len() as int),
            )
        }),
{
    let ls = split_lines(text);
    let k = find_entry(ls, query, 0)->Some_0;
    lemma_find_entry_found(ls, query, 0);
    lemma_concat_split_lines(text);
    let before = ls.subrange(0, k);
    let after = ls.subrange(k + 1, ls.len() as int);
    assert(ls =~= (before + seq![ls[k]]) + after);
    assert(ls.remove(k) =~= before + after);
    lemma_concat_append(before + seq![ls[k]], after);
    lemma_concat_append(before, seq![ls[k]]);
    lemma_concat_append(before, after);
    assert(concat(seq![ls[k]]) =~= ls[k]) by {
        let one = seq![ls[k]];
        assert(one.drop_last() =~= Seq::<Seq<char>>::empty());
        assert(concat(one.drop_last()) =~= Seq::<char>::empty());
        assert(concat(one) == concat(one.drop_last()) + one.last());
    }
}

} // verus!

verus! {

/// A shader that `pack add` files never loads on the dedicated server,
/// whatever side was asked for or Modrinth declares: it goes to
/// `[shaders]`, client-side.
pub proof fn law_shaders_stay_off_the_server(options: AddOptions, detected: ContentSide)
    requires
        options.kind == ContentKind::Shader,
    ensures
        section_of(options.kind, chosen_side(options, detected)) == "shaders"@,
        crate::spec::side_env(chosen_side(options, detected)).server
            == crate::spec::SideRequirement::Unsupported,
{
}

} // verus!

verus! {

proof fn lemma_section_end_after(ls: Seq<Seq<char>>, j: int)
    requires
        0 <= j <= ls.len(),
    ensures
        j <= section_end(ls, j),
    decreases ls.len() - j,
{
    if j < ls.len() && !opens_table(ls[j]) {
        lemma_section_end_after(ls, j + 1);
    }
}

proof fn lemma_find_entry_from_later(ls: Seq<Seq<char>>, query: Seq<char>, j: int, h: int)
    requires
        0 <= j <= h,
        find_entry(ls, query, h) is Some,
    ensures
        find_entry(ls, query, j) is Some,
    decreases h - j,
{
    if j < h {
        lemma_find_entry_from_later(ls, query, j + 1, h);
    }
}

/// Every content section is searched: where a line that trims to `[mods]`,
/// `[client_mods]`, `[server_mods]` or `[shaders]` is followed by an entry
/// for the query, `pack remove` finds an entry for it (the first one, in
/// the first content section that has one) and removes that line.
pub proof fn law_every_content_section_is_searched(ls: Seq<Seq<char>>, query: Seq<char>, h: int)
    requires
        0 <= h,
        h + 1 < ls.len(),
        seq_trim(ls[h], false) == "[mods]"@ || seq_trim(ls[h], false) == "[client_mods]"@
            || seq_trim(ls[h], false) == "[server_mods]"@ || seq_trim(ls[h], false)
            == "[shaders]"@,
        entry_for(ls[h + 1], query),
        !opens_table(ls[h + 1]),
    ensures
        find_entry(ls, query, 0) matches Some(k) && 0 <= k < ls.len() && entry_for(ls[k], query),
{
    assert(is_content_header(ls[h]));
    lemma_section_end_after(ls, h + 2);
    assert(section_end(ls, h + 1) == section_end(ls, h + 2));
    assert(find_in_section(ls, query, h + 1, section_end(ls, h + 1)) == Some(h + 1));
    assert(find_entry(ls, query, h) == Some(h + 1));
    lemma_find_entry_from_later(ls, query, 0, h);
    lemma_find_entry_found(ls, query, 0);
}

} // verus!

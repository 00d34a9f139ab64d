//! Character-level text helpers shared by the pack modules.

use vstd::prelude::*;
use vstd::string::*;

verus! {

/// `s` begins with `prefix`.
pub open spec fn seq_starts_with(s: Seq<char>, prefix: Seq<char>) -> bool {
    prefix.len() <= s.len() && s.subrange(0, prefix.len() as int) == prefix
}

/// `s` ends with `suffix`.
pub open spec fn seq_ends_with(s: Seq<char>, suffix: Seq<char>) -> bool {
    suffix.len() <= s.len() && s.subrange(s.len() - suffix.len(), s.len() as int) == suffix
}

/// `c` occurs somewhere in `s`.
pub open spec fn seq_has_char(s: Seq<char>, c: char) -> bool {
    exists|i: int| 0 <= i < s.len() && s[i] == c
}

/// The characters of a string slice, in order.
pub fn chars_of(s: &str) -> (v: Vec<char>)
    ensures
        v@ == s@,
{
    let n = s.unicode_len();
    let mut v: Vec<char> = Vec::new();
    let mut i: usize = 0;
    while i < n
        invariant
            n == s@.len(),
            i <= n,
            v@ == s@.subrange(0, i as int),
        decreases n - i,
    {
        let c = s.get_char(i);
        v.push(c);
        i = i + 1;
        assert(v@ =~= s@.subrange(0, i as int));
    }
    assert(v@ =~= s@);
    v
}

/// `String::push`, trusted: the string's characters afterwards are those
/// before it with `c` added at the end, as std documents.
#[verifier::external_body]
pub(crate) fn push_char(s: &mut String, c: char)
    ensures
        final(s)@ == old(s)@.push(c),
{
    s.push(c);
}

/// Collects characters into a string.
pub fn string_from(v: &[char]) -> (s: String)
    ensures
        s@ == v@,
{
    let mut s = String::new();
    let mut i: usize = 0;
    while i < v.len()
        invariant
            i <= v@.len(),
            s@ == v@.subrange(0, i as int),
        decreases v@.len() - i,
    {
        push_char(&mut s, v[i]);
        i = i + 1;
        assert(s@ =~= v@.subrange(0, i as int));
    }
    assert(s@ =~= v@);
    s
}

} // verus!

verus! {

/// Whether two string slices hold the same characters.
pub fn str_eq(a: &str, b: &str) -> (r: bool)
    ensures
        r == (a@ == b@),
{
    let x = a.to_owned();
    let y = b.to_owned();
    x == y
}

/// `s` begins with `prefix` (`str::starts_with`).
pub fn starts_with(s: &str, prefix: &str) -> (r: bool)
    ensures
        r == seq_starts_with(s@, prefix@),
{
    let a = chars_of(s);
    let p = chars_of(prefix);
    if p.len() > a.len() {
        return false;
    }
    let mut i: usize = 0;
    while i < p.len()
        invariant
            a@ == s@,
            p@ == prefix@,
            p@.len() <= a@.len(),
            i <= p@.len(),
            forall|j: int| 0 <= j < i ==> a@[j] == p@[j],
        decreases p@.len() - i,
    {
        if a[i] != p[i] {
            assert(a@.subrange(0, p@.len() as int)[i as int] != p@[i as int]);
            return false;
        }
        i = i + 1;
    }
    assert(a@.subrange(0, p@.len() as int) =~= p@);
    true
}

/// `s` ends with `suffix` (`str::ends_with`).
pub fn ends_with(s: &str, suffix: &str) -> (r: bool)
    ensures
        r == seq_ends_with(s@, suffix@),
{
    let a = chars_of(s);
    let p = chars_of(suffix);
    if p.len() > a.len() {
        return false;
    }
    let off = a.len() - p.len();
    let mut i: usize = 0;
    while i < p.len()
        invariant
            a@ == s@,
            p@ == suffix@,
            p@.len() <= a@.len(),
            off == a@.len() - p@.len(),
            off + p@.len() == a.len(),
            i <= p@.len(),
            forall|j: int| 0 <= j < i ==> a@[off + j] == p@[j],
        decreases p@.len() - i,
    {
        if a[off + i] != p[i] {
            assert(a@.subrange(off as int, a@.len() as int)[i as int] != p@[i as int]);
            return false;
        }
        i = i + 1;
    }
    assert(a@.subrange(off as int, a@.len() as int) =~= p@);
    true
}

/// `c` occurs in `s` (`str::contains` with a character).
pub fn has_char(s: &str, c: char) -> (r: bool)
    ensures
        r == seq_has_char(s@, c),
{
    let a = chars_of(s);
    let mut i: usize = 0;
    while i < a.len()
        invariant
            a@ == s@,
            i <= a@.len(),
            forall|j: int| 0 <= j < i ==> a@[j] != c,
        decreases a@.len() - i,
    {
        if a[i] == c {
            assert(s@[i as int] == c);
            return true;
        }
        i = i + 1;
    }
    false
}

/// The Unicode `White_Space` characters, which `str::trim` removes.
pub open spec fn is_white(c: char) -> bool {
    let u = c as u32;
    (9 <= u && u <= 13) || u == 32 || u == 0x85 || u == 0xa0 || u == 0x1680 || (0x2000 <= u
        && u <= 0x200a) || u == 0x2028 || u == 0x2029 || u == 0x202f || u == 0x205f || u == 0x3000
}

pub fn is_white_char(c: char) -> (r: bool)
    ensures
        r == is_white(c),
{
    let u = c as u32;
    (9 <= u && u <= 13) || u == 32 || u == 0x85 || u == 0xa0 || u == 0x1680 || (0x2000 <= u
        && u <= 0x200a) || u == 0x2028 || u == 0x2029 || u == 0x202f || u == 0x205f || u == 0x3000
}

/// Every character of `s` is white space, so `s.trim()` is empty.
pub open spec fn seq_is_blank(s: Seq<char>) -> bool {
    forall|i: int| 0 <= i < s.len() ==> is_white(s[i])
}

pub fn is_blank(s: &str) -> (r: bool)
    ensures
        r == seq_is_blank(s@),
{
    let a = chars_of(s);
    let mut i: usize = 0;
    while i < a.len()
        invariant
            a@ == s@,
            i <= a@.len(),
            forall|j: int| 0 <= j < i ==> is_white(a@[j]),
        decreases a@.len() - i,
    {
        if !is_white_char(a[i]) {
            assert(!is_white(s@[i as int]));
            return false;
        }
        i = i + 1;
    }
    true
}

/// The characters stripped by a trim: white space, or double quotes.
pub open spec fn strips(c: char, quotes: bool) -> bool {
    if quotes {
        c == '"'
    } else {
        is_white(c)
    }
}

/// `s` without its leading stripped characters.
pub open spec fn trim_start(s: Seq<char>, quotes: bool) -> Seq<char>
    decreases s.len(),
{
    if s.len() > 0 && strips(s[0], quotes) {
        trim_start(s.drop_first(), quotes)
    } else {
        s
    }
}

/// `s` without its trailing stripped characters.
pub open spec fn trim_end(s: Seq<char>, quotes: bool) -> Seq<char>
    decreases s.len(),
{
    if s.len() > 0 && strips(s.last(), quotes) {
        trim_end(s.drop_last(), quotes)
    } else {
        s
    }
}

/// `str::trim` (white space) or `str::trim_matches('"')` (quotes).
pub open spec fn seq_trim(s: Seq<char>, quotes: bool) -> Seq<char> {
    trim_end(trim_start(s, quotes), quotes)
}

pub proof fn lemma_trim_start_from(s: Seq<char>, quotes: bool, i: int)
    requires
        0 <= i <= s.len(),
        forall|j: int| 0 <= j < i ==> strips(s[j], quotes),
    ensures
        trim_start(s, quotes) == trim_start(s.subrange(i, s.len() as int), quotes),
    decreases i,
{
    if i > 0 {
        lemma_trim_start_from(s.drop_first(), quotes, i - 1);
        assert(s.drop_first().subrange(i - 1, s.drop_first().len() as int) =~= s.subrange(
            i,
            s.len() as int,
        ));
    } else {
        assert(s.subrange(0, s.len() as int) =~= s);
    }
}

pub proof fn lemma_trim_end_to(s: Seq<char>, quotes: bool, e: int)
    requires
        0 <= e <= s.len(),
        forall|j: int| e <= j < s.len() ==> strips(s[j], quotes),
    ensures
        trim_end(s, quotes) == trim_end(s.subrange(0, e), quotes),
    decreases s.len() - e,
{
    if e < s.len() {
        lemma_trim_end_to(s.drop_last(), quotes, e);
        assert(s.drop_last().subrange(0, e) =~= s.subrange(0, e));
    } else {
        assert(s.subrange(0, e) =~= s);
    }
}

pub fn strips_char(c: char, quotes: bool) -> (r: bool)
    ensures
        r == strips(c, quotes),
{
    if quotes {
        c == '"'
    } else {
        is_white_char(c)
    }
}

/// Trims white space (`quotes == false`) or double quotes (`quotes == true`)
/// from both ends.
pub fn trim_chars(v: &[char], quotes: bool) -> (r: Vec<char>)
    ensures
        r@ == seq_trim(v@, quotes),
{
    let n = v.len();
    let mut a: usize = 0;
    while a < n && strips_char(v[a], quotes)
        invariant
            n == v@.len(),
            a <= n,
            forall|j: int| 0 <= j < a ==> strips(v@[j], quotes),
        decreases n - a,
    {
        a = a + 1;
    }
    proof {
        lemma_trim_start_from(v@, quotes, a as int);
    }
    let ghost t = v@.subrange(a as int, n as int);
    assert(trim_start(v@, quotes) == t) by {
        if a < n {
            assert(t[0] == v@[a as int]);
        }
    }
    let mut e: usize = n;
    while e > a && strips_char(v[e - 1], quotes)
        invariant
            n == v@.len(),
            a <= e <= n,
            t == v@.subrange(a as int, n as int),
            forall|j: int| e - a <= j < t.len() ==> strips(t[j], quotes),
        decreases e,
    {
        e = e - 1;
    }
    proof {
        lemma_trim_end_to(t, quotes, e - a);
        let u = t.subrange(0, e - a);
        if e > a {
            assert(u.last() == v@[e - 1]);
        }
    }
    let mut r: Vec<char> = Vec::new();
    let mut i: usize = a;
    while i < e
        invariant
            a <= i <= e <= n,
            n == v@.len(),
            r@ == v@.subrange(a as int, i as int),
        decreases e - i,
    {
        r.push(v[i]);
        i = i + 1;
        assert(r@ =~= v@.subrange(a as int, i as int));
    }
    assert(t.subrange(0, e - a) =~= v@.subrange(a as int, e as int));
    r
}

} // verus!

verus! {

/// The character substitutions that the pack's text formats apply.
#[derive(Clone, Copy, PartialEq, Eq, Debug)]
pub enum Escape {
    /// Backslash and double quote inside a TOML basic string.
    Toml,
    /// `&`, `<`, `>` and `"` inside XML text.
    Xml,
    /// `.` becomes `/`, as a Maven group id becomes a repository path.
    Dots,
    /// Backslash, double quote, newline, carriage return, tab and NUL inside
    /// a quoted string as `Debug` writes it; other characters stay as they are.
    Debug,
}

/// What one character becomes under an escape.
pub open spec fn escape_char(c: char, mode: Escape) -> Seq<char> {
    match mode {
        Escape::Toml => if c == '\\' {
            seq!['\\', '\\']
        } else if c == '"' {
            seq!['\\', '"']
        } else {
            seq![c]
        },
        Escape::Xml => if c == '&' {
            seq!['&', 'a', 'm', 'p', ';']
        } else if c == '<' {
            seq!['&', 'l', 't', ';']
        } else if c == '>' {
            seq!['&', 'g', 't', ';']
        } else if c == '"' {
            seq!['&', 'q', 'u', 'o', 't', ';']
        } else {
            seq![c]
        },
        Escape::Dots => if c == '.' {
            seq!['/']
        } else {
            seq![c]
        },
        Escape::Debug => if c == '\\' {
            seq!['\\', '\\']
        } else if c == '"' {
            seq!['\\', '"']
        } else if c == '\n' {
            seq!['\\', 'n']
        } else if c == '\r' {
            seq!['\\', 'r']
        } else if c == '\t' {
            seq!['\\', 't']
        } else if c == '\0' {
            seq!['\\', '0']
        } else {
            seq![c]
        },
    }
}

/// `s` with every character replaced as `mode` says.
pub open spec fn escaped(s: Seq<char>, mode: Escape) -> Seq<char>
    decreases s.len(),
{
    if s.len() == 0 {
        Seq::empty()
    } else {
        escaped(s.drop_last(), mode) + escape_char(s.last(), mode)
    }
}

/// Appends a short sequence of characters.
fn push_all(out: &mut String, cs: &[char])
    ensures
        final(out)@ == old(out)@ + cs@,
{
    let mut i: usize = 0;
    while i < cs.len()
        invariant
            i <= cs@.len(),
            out@ == old(out)@ + cs@.subrange(0, i as int),
        decreases cs@.len() - i,
    {
        push_char(out, cs[i]);
        i = i + 1;
        assert(out@ =~= old(out)@ + cs@.subrange(0, i as int));
    }
    assert(cs@.subrange(0, cs@.len() as int) =~= cs@);
}

fn push_escaped_char(out: &mut String, c: char, mode: Escape)
    ensures
        final(out)@ == old(out)@ + escape_char(c, mode),
{
    match mode {
        Escape::Toml => if c == '\\' {
            push_all(out, &['\\', '\\']);
        } else if c == '"' {
            push_all(out, &['\\', '"']);
        } else {
            push_char(out, c);
        },
        Escape::Xml => if c == '&' {
            push_all(out, &['&', 'a', 'm', 'p', ';']);
        } else if c == '<' {
            push_all(out, &['&', 'l', 't', ';']);
        } else if c == '>' {
            push_all(out, &['&', 'g', 't', ';']);
        } else if c == '"' {
            push_all(out, &['&', 'q', 'u', 'o', 't', ';']);
        } else {
            push_char(out, c);
        },
        Escape::Dots => if c == '.' {
            push_char(out, '/');
        } else {
            push_char(out, c);
        },
        Escape::Debug => if c == '\\' {
            push_all(out, &['\\', '\\']);
        } else if c == '"' {
            push_all(out, &['\\', '"']);
        } else if c == '\n' {
            push_all(out, &['\\', 'n']);
        } else if c == '\r' {
            push_all(out, &['\\', 'r']);
        } else if c == '\t' {
            push_all(out, &['\\', 't']);
        } else if c == '\0' {
            push_all(out, &['\\', '0']);
        } else {
            push_char(out, c);
        },
    }
}

/// Appends `s` with its characters replaced as `mode` says.
pub fn push_escaped(out: &mut String, s: &str, mode: Escape)
    ensures
        final(out)@ == old(out)@ + escaped(s@, mode),
{
    let v = chars_of(s);
    let mut i: usize = 0;
    while i < v.len()
        invariant
            v@ == s@,
            i <= v@.len(),
            out@ == old(out)@ + escaped(v@.subrange(0, i as int), mode),
        decreases v@.len() - i,
    {
        let ghost before = out@;
        push_escaped_char(out, v[i], mode);
        assert(v@.subrange(0, i + 1).drop_last() =~= v@.subrange(0, i as int));
        i = i + 1;
        assert(out@ =~= old(out)@ + escaped(v@.subrange(0, i as int), mode));
    }
    assert(v@.subrange(0, v@.len() as int) =~= v@);
}

/// `s` with its characters replaced as `mode` says (`str::replace`).
pub fn escape(s: &str, mode: Escape) -> (r: String)
    ensures
        r@ == escaped(s@, mode),
{
    let mut out = String::new();
    push_escaped(&mut out, s, mode);
    out
}

/// A TOML basic string holding `value`.
pub open spec fn toml_quoted(value: Seq<char>) -> Seq<char> {
    seq!['"'] + escaped(value, Escape::Toml) + seq!['"']
}

/// Appends `value` as a TOML basic string.
pub fn push_toml_string(out: &mut String, value: &str)
    ensures
        final(out)@ == old(out)@ + toml_quoted(value@),
{
    push_char(out, '"');
    push_escaped(out, value, Escape::Toml);
    push_char(out, '"');
    assert(out@ =~= old(out)@ + toml_quoted(value@));
}

/// `value` as a TOML basic string.
pub fn toml_string(value: &str) -> (r: String)
    ensures
        r@ == toml_quoted(value@),
{
    let mut out = String::new();
    push_toml_string(&mut out, value);
    out
}

/// `value` escaped for XML text.
pub fn xml(value: &str) -> (r: String)
    ensures
        r@ == escaped(value@, Escape::Xml),
{
    escape(value, Escape::Xml)
}

/// The decimal digit for `d < 10`.
pub open spec fn digit(d: nat) -> char {
    ((48 + d) as u8) as char
}

/// The decimal numeral of `n`, as `u64`'s `Display` writes it.
pub open spec fn decimal(n: nat) -> Seq<char>
    decreases n,
{
    if n < 10 {
        seq![digit(n)]
    } else {
        decimal(n / 10) + seq![digit(n % 10)]
    }
}

/// Appends the decimal numeral of `n`.
pub fn push_decimal(out: &mut String, n: u64)
    ensures
        final(out)@ == old(out)@ + decimal(n as nat),
    decreases n,
{
    if n >= 10 {
        push_decimal(out, n / 10);
    }
    let d: u8 = (n % 10) as u8;
    push_char(out, (48u8 + d) as char);
    assert(out@ =~= old(out)@ + decimal(n as nat));
}

/// The decimal numeral of `n`.
pub fn decimal_string(n: u64) -> (r: String)
    ensures
        r@ == decimal(n as nat),
{
    let mut out = String::new();
    push_decimal(&mut out, n);
    out
}

} // verus!

verus! {

/// Where the `/`-separated part of `s` that ends at `end` starts.
pub open spec fn part_start(s: Seq<char>, end: int) -> int
    decreases end,
{
    if end <= 0 || s[end - 1] == '/' {
        end
    } else {
        part_start(s, end - 1)
    }
}

pub proof fn lemma_part_start(s: Seq<char>, end: int)
    requires
        0 <= end <= s.len(),
    ensures
        0 <= part_start(s, end) <= end,
        part_start(s, end) == 0 || s[part_start(s, end) - 1] == '/',
        forall|i: int| part_start(s, end) <= i < end ==> s[i] != '/',
    decreases end,
{
    if end > 0 && s[end - 1] != '/' {
        lemma_part_start(s, end - 1);
    }
}

/// The last component of the path `s[..end]`, as `Path::file_name` gives
/// it: trailing slashes and `.` parts are skipped; a final `..`, or a path
/// with no normal component, has none.
pub open spec fn file_name_before(s: Seq<char>, end: int) -> Option<Seq<char>>
    decreases end,
{
    if end <= 0 || end > s.len() {
        None
    } else if s[end - 1] == '/' {
        file_name_before(s, end - 1)
    } else {
        let st = part_start(s, end);
        let part = s.subrange(st, end);
        if part == seq!['.'] {
            if st == 0 {
                None
            } else {
                proof {
                    lemma_part_start(s, end);
                }
                file_name_before(s, st - 1)
            }
        } else if part == seq!['.', '.'] {
            None
        } else {
            Some(part)
        }
    }
}

/// `Path::new(s).file_name()`.
pub open spec fn file_name(s: Seq<char>) -> Option<Seq<char>> {
    file_name_before(s, s.len() as int)
}

/// The last component of a slash-separated path (`Path::file_name`).
#[verifier::spinoff_prover]
pub fn path_file_name(path: &str) -> (r: Option<Vec<char>>)
    ensures
        match r {
            Some(v) => file_name(path@) == Some(v@),
            None => file_name(path@) is None,
        },
{
    let s = chars_of(path);
    let mut end = s.len();
    loop
        invariant
            s@ == path@,
            end <= s@.len(),
            file_name(path@) == file_name_before(s@, end as int),
        decreases end,
    {
        if end == 0 {
            return None;
        }
        if s[end - 1] == '/' {
            end = end - 1;
        } else {
            let mut st = end;
            while st > 0 && s[st - 1] != '/'
                invariant
                    st <= end <= s@.len(),
                    end > 0,
                    s@[end - 1] != '/',
                    part_start(s@, end as int) == part_start(s@, st as int),
                decreases st,
            {
                st = st - 1;
            }
            proof {
                lemma_part_start(s@, end as int);
            }
            let ghost part = s@.subrange(st as int, end as int);
            if end - st == 1 && s[st] == '.' {
                assert(part =~= seq!['.']);
                if st == 0 {
                    return None;
                }
                end = st - 1;
            } else if end - st == 2 && s[st] == '.' && s[st + 1] == '.' {
                assert(part =~= seq!['.', '.']);
                return None;
            } else {
                assert(part != seq!['.']) by {
                    if part =~= seq!['.'] {
                        assert(part.len() == end - st);
                        assert(end - st == 1);
                        assert(part[0] == s@[st as int]);
                        assert(s@[st as int] == '.');
                    }
                }
                assert(part != seq!['.', '.']) by {
                    if part =~= seq!['.', '.'] {
                        assert(part.len() == end - st);
                        assert(end - st == 2);
                        assert(part[0] == s@[st as int]);
                        assert(part[1] == s@[st + 1]);
                        assert(s@[st as int] == '.' && s@[st + 1] == '.');
                    }
                }
                let mut v: Vec<char> = Vec::new();
                let mut i = st;
                while i < end
                    invariant
                        st <= i <= end <= s@.len(),
                        v@ == s@.subrange(st as int, i as int),
                    decreases end - i,
                {
                    v.push(s[i]);
                    i = i + 1;
                    assert(v@ =~= s@.subrange(st as int, i as int));
                }
                return Some(v);
            }
        }
    }
}

/// The path `part` joined onto `base`, as `Path::join` joins a relative part.
pub open spec fn path_join(base: Seq<char>, part: Seq<char>) -> Seq<char> {
    if part.len() > 0 && part[0] == '/' {
        part
    } else if base.len() == 0 || base.last() == '/' {
        base + part
    } else {
        base + seq!['/'] + part
    }
}

/// `Path::new(base).join(part)` for slash-separated paths.
pub fn join(base: &str, part: &str) -> (r: String)
    ensures
        r@ == path_join(base@, part@),
{
    let p = chars_of(part);
    if p.len() > 0 && p[0] == '/' {
        return part.to_owned();
    }
    let b = chars_of(base);
    let mut r = base.to_owned();
    if !(b.len() == 0 || b[b.len() - 1] == '/') {
        push_char(&mut r, '/');
    }
    r.append(part);
    r
}

} // verus!

verus! {

/// `c` with ASCII capitals made small (`char::to_ascii_lowercase`).
pub open spec fn ascii_lower(c: char) -> int {
    if 65 <= (c as u32) && (c as u32) <= 90 {
        (c as u32) + 32
    } else {
        c as u32 as int
    }
}

/// `a` and `b` are equal up to ASCII case (`str::eq_ignore_ascii_case`).
pub open spec fn eq_ignore_case(a: Seq<char>, b: Seq<char>) -> bool {
    a.len() == b.len() && forall|i: int| 0 <= i < a.len() ==> ascii_lower(a[i]) == ascii_lower(b[i])
}

pub fn eq_ignore_ascii_case(a: &[char], b: &[char]) -> (r: bool)
    ensures
        r == eq_ignore_case(a@, b@),
{
    if a.len() != b.len() {
        return false;
    }
    let mut i: usize = 0;
    while i < a.len()
        invariant
            a@.len() == b@.len(),
            i <= a@.len(),
            forall|j: int| 0 <= j < i ==> ascii_lower(a@[j]) == ascii_lower(b@[j]),
        decreases a@.len() - i,
    {
        let x = a[i] as u32;
        let y = b[i] as u32;
        let lx = if 65 <= x && x <= 90 {
            x + 32
        } else {
            x
        };
        let ly = if 65 <= y && y <= 90 {
            y + 32
        } else {
            y
        };
        if lx != ly {
            return false;
        }
        i = i + 1;
    }
    true
}

/// The characters of a string slice as a `Vec` slice, trimmed of white space.
pub fn trimmed(s: &str) -> (r: Vec<char>)
    ensures
        r@ == seq_trim(s@, false),
{
    let v = chars_of(s);
    trim_chars(v.as_slice(), false)
}

} // verus!

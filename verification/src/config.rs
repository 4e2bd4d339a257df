//! The `.zshrc` model: recognizes the top-level `ZSH_THEME` and `plugins=(...)`
//! assignments, and rewrites only their values while keeping every other
//! byte of the file.
use crate::text::{
    ascii_space, byte_offset, chars_eq, chars_of, concat, decimal, decimal_exec, extend_chars,
    extend_str, find_char, find_char_at, is_ascii_alnum, is_ascii_space, is_blank, is_white_space,
    lemma_find_char_bounds, lemma_skip_blanks_bounds, line_end, owned,
    skip_blanks, skip_blanks_at, skip_white, skip_white_at, slice_chars, starts_with_at,
    starts_with_at_exec, string_of, trailing_expression, trailing_expression_at, utf8_len,
    trim, white_space,
};
use vstd::prelude::*;

verus! {

/// The SHA-256 of the UTF-8 bytes of `s`, as 64 lowercase hex digits.
pub uninterp spec fn sha256_hex(s: Seq<char>) -> Seq<char>;

/// Hashes the bytes of `s` with `sha2::Sha256::digest` and formats the
/// 32-byte digest with `{:x}`. The contract claims that the text is
/// `sha256_hex(s@)`, a function of `s` alone, and that it is 64 lowercase hex
/// digits (two per byte, as generic-array's `LowerHex` writes them); the
/// hash function itself is not stated.
#[verifier::external_body]
pub fn digest(s: &str) -> (r: String)
    ensures
        r@ == sha256_hex(s@),
        r@.len() == 64,
        forall|i: int| 0 <= i < 64 ==> is_lower_hex(#[trigger] r@[i]),
{
    format!("{:x}", <sha2::Sha256 as sha2::Digest>::digest(s.as_bytes()))
}

/// A lowercase hexadecimal digit.
pub open spec fn is_lower_hex(c: char) -> bool {
    ('0' <= c && c <= '9') || ('a' <= c && c <= 'f')
}

/// A character allowed in a plugin, theme or repository name.
pub open spec fn is_component_char(c: char) -> bool {
    is_ascii_alnum(c) || c == '.' || c == '_' || c == '-'
}

/// A single safe path component: 1 to 100 of `[A-Za-z0-9._-]`, not starting
/// with `.` or `-` (so never `.` or `..`).
pub open spec fn is_component(s: Seq<char>) -> bool {
    &&& 0 < s.len() <= 100
    &&& s[0] != '.'
    &&& s[0] != '-'
    &&& forall|i: int| 0 <= i < s.len() ==> is_component_char(#[trigger] s[i])
}

/// Every `/`-separated part of `s[i..]` is a component.
pub open spec fn segments_ok(s: Seq<char>, i: int) -> bool
    decreases s.len() - i,
{
    if 0 <= i <= s.len() {
        let k = find_char(s, i, '/');
        proof {
            lemma_find_char_bounds(s, i, '/');
        }
        &&& is_component(s.subrange(i, k))
        &&& (k < s.len() ==> segments_ok(s, k + 1))
    } else {
        false
    }
}

/// A theme value that may be written literally: empty, or components joined by `/`.
pub open spec fn is_theme_literal(s: Seq<char>) -> bool {
    s.len() == 0 || segments_ok(s, 0)
}

fn component_chars(s: &Vec<char>, a: usize, b: usize) -> (r: bool)
    requires
        a <= b <= s.len(),
    ensures
        r == is_component(s@.subrange(a as int, b as int)),
{
    let ghost t = s@.subrange(a as int, b as int);
    if a == b || b - a > 100 || s[a] == '.' || s[a] == '-' {
        return false;
    }
    let mut i = a;
    while i < b
        invariant
            a <= i <= b <= s.len(),
            t == s@.subrange(a as int, b as int),
            forall|k: int| 0 <= k < i - a ==> is_component_char(#[trigger] t[k]),
        decreases b - i,
    {
        let c = s[i];
        let ok = ('a' <= c && c <= 'z') || ('A' <= c && c <= 'Z') || ('0' <= c && c <= '9') || c
            == '.' || c == '_' || c == '-';
        if !ok {
            assert(!is_component_char(t[i - a]));
            return false;
        }
        i += 1;
    }
    true
}

/// Whether `s` is a safe single path component (see `is_component`).
pub fn component(s: &str) -> (r: bool)
    ensures
        r == is_component(s@),
{
    let v = chars_of(s);
    let r = component_chars(&v, 0, v.len());
    assert(v@.subrange(0, v@.len() as int) =~= v@);
    r
}

/// Whether `s` is a theme value that may be written literally (see `is_theme_literal`).
pub fn theme_literal(s: &str) -> (r: bool)
    ensures
        r == is_theme_literal(s@),
{
    let v = chars_of(s);
    if v.len() == 0 {
        return true;
    }
    let mut i: usize = 0;
    loop
        invariant
            i <= v.len(),
            v@ == s@,
            v.len() > 0,
            segments_ok(v@, 0) == segments_ok(v@, i as int),
        decreases v.len() - i,
    {
        let k = find_char_at(&v, i, '/');
        if !component_chars(&v, i, k) {
            return false;
        }
        if k == v.len() {
            return true;
        }
        i = k + 1;
    }
}

/// The word `export`.
pub open spec fn export_word() -> Seq<char> {
    seq!['e', 'x', 'p', 'o', 'r', 't']
}

/// Index `p` is where a line begins.
pub open spec fn at_line_start(s: Seq<char>, p: int) -> bool {
    p == 0 || (0 < p <= s.len() && s[p - 1] == '\n')
}

/// With `name` at `k`: `[ \t]*(\+)?=[ \t]*` follows; gives the end of that
/// text and whether the `+` was there.
pub open spec fn after_name(s: Seq<char>, k: int, name: Seq<char>) -> Option<(int, bool)> {
    if !starts_with_at(s, k, name) {
        None
    } else {
        let j = skip_blanks(s, k + name.len());
        if 0 <= j && j + 1 < s.len() && s[j] == '+' && s[j + 1] == '=' {
            Some((skip_blanks(s, j + 2), true))
        } else if 0 <= j < s.len() && s[j] == '=' {
            Some((skip_blanks(s, j + 1), false))
        } else {
            None
        }
    }
}

/// After `export[ \t]+`, the name is tried at `k`, then at each earlier
/// position down to `q + 1` (the blanks give back one at a time).
pub open spec fn export_try(s: Seq<char>, name: Seq<char>, q: int, k: int) -> Option<(int, bool)>
    decreases k - q,
{
    if k <= q {
        None
    } else {
        match after_name(s, k, name) {
            Some(r) => Some(r),
            None => export_try(s, name, q, k - 1),
        }
    }
}

/// The assignment `(?:export[ \t]+)?NAME[ \t]*(\+)?=[ \t]*` matched at `p`:
/// its end and whether it is an `+=`.
pub open spec fn assign_at(s: Seq<char>, p: int, name: Seq<char>) -> Option<(int, bool)> {
    let ex = if starts_with_at(s, p, export_word()) && p + 6 < s.len() && is_blank(s[p + 6]) {
        export_try(s, name, p + 6, skip_blanks(s, p + 6))
    } else {
        None
    };
    if ex is Some {
        ex
    } else {
        after_name(s, p, name)
    }
}

pub proof fn lemma_after_name_progress(s: Seq<char>, k: int, name: Seq<char>)
    requires
        0 <= k <= s.len(),
    ensures
        after_name(s, k, name) matches Some((e, _)) ==> k < e <= s.len(),
{
    if starts_with_at(s, k, name) {
        let j = skip_blanks(s, k + name.len());
        lemma_skip_blanks_bounds(s, k + name.len());
        if j + 1 < s.len() && s[j] == '+' && s[j + 1] == '=' {
            lemma_skip_blanks_bounds(s, j + 2);
        } else if j < s.len() && s[j] == '=' {
            lemma_skip_blanks_bounds(s, j + 1);
        }
    }
}

pub proof fn lemma_export_try_progress(s: Seq<char>, name: Seq<char>, q: int, k: int)
    requires
        0 <= q,
        k <= s.len(),
    ensures
        export_try(s, name, q, k) matches Some((e, _)) ==> q < e <= s.len(),
    decreases k - q,
{
    if k > q {
        lemma_after_name_progress(s, k, name);
        if after_name(s, k, name) is None {
            lemma_export_try_progress(s, name, q, k - 1);
        }
    }
}

pub proof fn lemma_assign_at_progress(s: Seq<char>, p: int, name: Seq<char>)
    requires
        0 <= p <= s.len(),
    ensures
        assign_at(s, p, name) matches Some((e, _)) ==> p < e <= s.len(),
{
    lemma_after_name_progress(s, p, name);
    if starts_with_at(s, p, export_word()) && p + 6 < s.len() && is_blank(s[p + 6]) {
        lemma_skip_blanks_bounds(s, p + 6);
        lemma_export_try_progress(s, name, p + 6, skip_blanks(s, p + 6));
    }
}

/// The top-level assignments of `name` from index `i` on, as the regex
/// search finds them: leftmost first, each search resuming at the previous end.
/// Each is `(start, end, is_increment)`.
pub open spec fn matches_from(s: Seq<char>, name: Seq<char>, i: int) -> Seq<(int, int, bool)>
    decreases s.len() + 1 - i,
{
    if i < 0 || i > s.len() {
        seq![]
    } else if at_line_start(s, i) && assign_at(s, i, name) is Some {
        let (e, plus) = assign_at(s, i, name)->0;
        proof {
            lemma_assign_at_progress(s, i, name);
        }
        seq![(i, e, plus)] + matches_from(s, name, e)
    } else {
        matches_from(s, name, i + 1)
    }
}

/// All top-level assignments of `name` in `s`.
pub open spec fn assignments(s: Seq<char>, name: Seq<char>) -> Seq<(int, int, bool)> {
    matches_from(s, name, 0)
}

fn after_name_exec(s: &Vec<char>, k: usize, name: &Vec<char>) -> (r: Option<(usize, bool)>)
    requires
        k <= s.len(),
    ensures
        r matches Some((e, b)) ==> after_name(s@, k as int, name@) == Some((e as int, b)),
        r is None ==> after_name(s@, k as int, name@) is None,
{
    if !starts_with_at_exec(s, k, name) {
        return None;
    }
    let j = skip_blanks_at(s, k + name.len());
    if j < s.len() && j + 1 < s.len() && s[j] == '+' && s[j + 1] == '=' {
        Some((skip_blanks_at(s, j + 2), true))
    } else if j < s.len() && s[j] == '=' {
        Some((skip_blanks_at(s, j + 1), false))
    } else {
        None
    }
}

fn assign_at_exec(s: &Vec<char>, p: usize, name: &Vec<char>) -> (r: Option<(usize, bool)>)
    requires
        p <= s.len(),
    ensures
        r matches Some((e, b)) ==> assign_at(s@, p as int, name@) == Some((e as int, b)),
        r is None ==> assign_at(s@, p as int, name@) is None,
{
    let ex = chars_of("export");
    proof {
        reveal_strlit("export");
        assert(ex@ =~= export_word());
    }
    if starts_with_at_exec(s, p, &ex) && p + 6 < s.len() && (s[p + 6] == ' ' || s[p + 6] == '\t') {
        let q = p + 6;
        let mut k = skip_blanks_at(s, q);
        while k > q
            invariant
                q < s.len(),
                q <= k <= s.len(),
                starts_with_at(s@, p as int, export_word()),
                p + 6 == q,
                is_blank(s@[q as int]),
                export_try(s@, name@, q as int, k as int) == export_try(
                    s@,
                    name@,
                    q as int,
                    skip_blanks(s@, q as int),
                ),
            decreases k - q,
        {
            let r = after_name_exec(s, k, name);
            if r.is_some() {
                return r;
            }
            k -= 1;
        }
    }
    after_name_exec(s, p, name)
}

proof fn lemma_no_assign_at_end(s: Seq<char>, name: Seq<char>)
    ensures
        assign_at(s, s.len() as int, name) is None,
        matches_from(s, name, s.len() + 1int) == Seq::<(int, int, bool)>::empty(),
{
    assert(matches_from(s, name, s.len() + 1int) =~= Seq::<(int, int, bool)>::empty());
}

/// View of an executable match list.
pub open spec fn match_view(v: Seq<(usize, usize, bool)>) -> Seq<(int, int, bool)> {
    v.map_values(|m: (usize, usize, bool)| (m.0 as int, m.1 as int, m.2))
}

fn find_assignments(s: &Vec<char>, name: &Vec<char>) -> (r: Vec<(usize, usize, bool)>)
    ensures
        match_view(r@) == assignments(s@, name@),
        forall|k: int| 0 <= k < r@.len() ==> (#[trigger] r@[k]).0 < r@[k].1 <= s.len(),
{
    let mut out: Vec<(usize, usize, bool)> = Vec::new();
    let mut i: usize = 0;
    while i < s.len()
        invariant
            i <= s.len(),
            assignments(s@, name@) == match_view(out@) + matches_from(s@, name@, i as int),
            forall|k: int| 0 <= k < out@.len() ==> (#[trigger] out@[k]).0 < out@[k].1 <= s.len(),
        decreases s.len() - i,
    {
        let start = i == 0 || s[i - 1] == '\n';
        let hit = if start {
            assign_at_exec(s, i, name)
        } else {
            None
        };
        proof {
            lemma_assign_at_progress(s@, i as int, name@);
        }
        match hit {
            Some((e, plus)) => {
                let ghost before = match_view(out@);
                out.push((i, e, plus));
                assert(match_view(out@) =~= before + seq![(i as int, e as int, plus)]);
                i = e;
            },
            None => {
                i += 1;
            },
        }
    }
    proof {
        lemma_no_assign_at_end(s@, name@);
        if i == s.len() {
            assert(matches_from(s@, name@, i as int) =~= matches_from(s@, name@, i + 1));
        }
        assert(match_view(out@) + matches_from(s@, name@, i as int) =~= match_view(out@));
    }
    out
}


/// End of an unquoted value: the first white space, `#` or `;` at or after `i`.
pub open spec fn value_stop(s: Seq<char>, i: int) -> int
    decreases s.len() - i,
{
    if 0 <= i < s.len() && !is_white_space(s[i]) && s[i] != '#' && s[i] != ';' {
        value_stop(s, i + 1)
    } else {
        i
    }
}

/// `v` holds a newline, carriage return, backslash or backquote.
pub open spec fn has_dynamic_char(v: Seq<char>) -> bool {
    exists|k: int| 0 <= k < v.len() && (v[k] == '\n' || v[k] == '\r' || v[k] == '\\' || v[k] == '`')
}

/// The single literal assignment of `name`: `Ok(None)` when there is none,
/// else its value span `(start, end)` and value (without quotes); `Err` with
/// the reason when the assignment is repeated, incremental or not a literal.
pub open spec fn scalar_spec(s: Seq<char>, name: Seq<char>) -> Result<
    Option<(int, int, Seq<char>)>,
    Seq<char>,
> {
    let ms = assignments(s, name);
    if ms.len() > 1 || (ms.len() == 1 && ms[0].2) {
        Err(name + " has multiple or incremental assignments"@)
    } else if ms.len() == 0 {
        Ok(None)
    } else {
        let start = ms[0].1;
        if 0 <= start < s.len() && (s[start] == '"' || s[start] == '\'') {
            let k = find_char(s, start + 1, s[start]);
            if k >= s.len() {
                Err(name + ": unclosed quote"@)
            } else if has_dynamic_char(s.subrange(start + 1, k)) {
                Err(name + ": dynamic value"@)
            } else if trailing_expression(s, k + 1) {
                Err(name + ": trailing shell expression"@)
            } else {
                Ok(Some((start, k + 1, s.subrange(start + 1, k))))
            }
        } else {
            let k = value_stop(s, start);
            if trailing_expression(s, k) {
                Err(name + ": trailing shell expression"@)
            } else {
                Ok(Some((start, k, s.subrange(start, k))))
            }
        }
    }
}

/// A literal value in the source, with its character span.
#[derive(Clone, Debug)]
pub struct Scalar {
    pub start: usize,
    pub end: usize,
    pub value: String,
}

impl Scalar {
    pub open spec fn model(&self) -> (int, int, Seq<char>) {
        (self.start as int, self.end as int, self.value@)
    }
}

fn value_stop_at(s: &Vec<char>, i: usize) -> (r: usize)
    requires
        i <= s.len(),
    ensures
        r == value_stop(s@, i as int),
        i <= r <= s.len(),
{
    let mut k = i;
    while k < s.len() && !white_space(s[k]) && s[k] != '#' && s[k] != ';'
        invariant
            i <= k <= s.len(),
            value_stop(s@, k as int) == value_stop(s@, i as int),
        decreases s.len() - k,
    {
        k += 1;
    }
    k
}

fn dynamic_chars(s: &Vec<char>, a: usize, b: usize) -> (r: bool)
    requires
        a <= b <= s.len(),
    ensures
        r == has_dynamic_char(s@.subrange(a as int, b as int)),
{
    let ghost t = s@.subrange(a as int, b as int);
    let mut i = a;
    while i < b
        invariant
            a <= i <= b <= s.len(),
            t == s@.subrange(a as int, b as int),
            forall|k: int|
                0 <= k < i - a ==> !(t[k] == '\n' || t[k] == '\r' || t[k] == '\\' || t[k] == '`'),
        decreases b - i,
    {
        let c = s[i];
        if c == '\n' || c == '\r' || c == '\\' || c == '`' {
            assert(t[i - a] == c);
            return true;
        }
        i += 1;
    }
    false
}

/// The literal assignment of `name` in `s` (see `scalar_spec`).
pub fn scalar(s: &Vec<char>, name: &str) -> (r: Result<Option<Scalar>, String>)
    ensures
        match (r, scalar_spec(s@, name@)) {
            (Ok(None), Ok(None)) => true,
            (Ok(Some(x)), Ok(Some(m))) => x.model() == m && x.end <= s.len(),
            (Err(e), Err(m)) => e@ == m,
            _ => false,
        },
{
    let n = chars_of(name);
    let ms = find_assignments(s, &n);
    if ms.len() > 1 || (ms.len() == 1 && ms[0].2) {
        return Err(concat(name, " has multiple or incremental assignments"));
    }
    if ms.len() == 0 {
        return Ok(None);
    }
    let start = ms[0].1;
    if start < s.len() && (s[start] == '"' || s[start] == '\'') {
        let q = s[start];
        let k = find_char_at(s, start + 1, q);
        if k >= s.len() {
            return Err(concat(name, ": unclosed quote"));
        }
        if dynamic_chars(s, start + 1, k) {
            return Err(concat(name, ": dynamic value"));
        }
        if trailing_expression_at(s, k + 1) {
            return Err(concat(name, ": trailing shell expression"));
        }
        let v = slice_chars(s, start + 1, k);
        Ok(Some(Scalar { start, end: k + 1, value: string_of(&v) }))
    } else {
        let k = value_stop_at(s, start);
        if trailing_expression_at(s, k) {
            return Err(concat(name, ": trailing shell expression"));
        }
        let v = slice_chars(s, start, k);
        Ok(Some(Scalar { start, end: k, value: string_of(&v) }))
    }
}

/// The literal value assigned to `name` in `source`, if there is one
/// (see `scalar_spec`).
pub fn literal_path(source: &str, name: &str) -> (r: Result<Option<String>, String>)
    ensures
        match (r, scalar_spec(source@, name@)) {
            (Ok(None), Ok(None)) => true,
            (Ok(Some(v)), Ok(Some(m))) => v@ == m.2,
            (Err(e), Err(m)) => e@ == m,
            _ => false,
        },
{
    let s = chars_of(source);
    match scalar(&s, name) {
        Ok(Some(x)) => Ok(Some(x.value)),
        Ok(None) => Ok(None),
        Err(e) => Err(e),
    }
}


/// End of an unquoted array word: the first ASCII white space, `)` or `#`.
pub open spec fn token_stop(s: Seq<char>, i: int) -> int
    decreases s.len() - i,
{
    if 0 <= i < s.len() && !is_ascii_space(s[i]) && s[i] != ')' && s[i] != '#' {
        token_stop(s, i + 1)
    } else {
        i
    }
}

/// The array word that begins at `i`: its value (a quoted word without its
/// quotes) and the index just after it.
pub open spec fn token_at(s: Seq<char>, i: int) -> (Seq<char>, int) {
    if s[i] == '\'' || s[i] == '"' {
        let k = find_char(s, i + 1, s[i]);
        (s.subrange(i + 1, k), if k < s.len() { k + 1 } else { k })
    } else {
        let k = token_stop(s, i);
        (s.subrange(i, k), k)
    }
}

pub proof fn lemma_token_stop_bounds(s: Seq<char>, i: int)
    requires
        0 <= i <= s.len(),
    ensures
        i <= token_stop(s, i) <= s.len(),
    decreases s.len() - i,
{
    if i < s.len() && !is_ascii_space(s[i]) && s[i] != ')' && s[i] != '#' {
        lemma_token_stop_bounds(s, i + 1);
    }
}

pub proof fn lemma_token_at_progress(s: Seq<char>, i: int)
    requires
        0 <= i < s.len(),
        !is_ascii_space(s[i]),
        s[i] != ')',
        s[i] != '#',
    ensures
        i < token_at(s, i).1 <= s.len(),
        s[i] == '\'' || s[i] == '"' ==> i + 1 <= find_char(s, i + 1, s[i]) <= s.len(),
        !(s[i] == '\'' || s[i] == '"') ==> token_at(s, i).1 == token_stop(s, i),
{
    lemma_find_char_bounds(s, i + 1, s[i]);
    lemma_token_stop_bounds(s, i + 1);
}

/// Reading the plugins array from `i` on: the words `(start, end, value)`,
/// the index of the closing `)` if reached, and whether a word that is not a
/// plain name stopped the reading. Comments run to the end of their line.
pub open spec fn scan_array(s: Seq<char>, i: int) -> (Seq<(int, int, Seq<char>)>, Option<int>, bool)
    decreases s.len() - i,
{
    if i < 0 || i >= s.len() {
        (seq![], None, false)
    } else if is_ascii_space(s[i]) {
        scan_array(s, i + 1)
    } else if s[i] == '#' {
        proof {
            lemma_find_char_bounds(s, i, '\n');
        }
        scan_array(s, line_end(s, i))
    } else if s[i] == ')' {
        (seq![], Some(i), false)
    } else {
        let (v, j) = token_at(s, i);
        proof {
            lemma_token_at_progress(s, i);
        }
        if !is_component(v) {
            (seq![], None, true)
        } else {
            let r = scan_array(s, j);
            (seq![(i, j, v)] + r.0, r.1, r.2)
        }
    }
}

pub open spec fn theme_name() -> Seq<char> {
    "ZSH_THEME"@
}

pub open spec fn plugins_name() -> Seq<char> {
    "plugins"@
}

/// Index of the `(` of the single literal `plugins=(` assignment.
pub open spec fn array_open(s: Seq<char>) -> Option<int> {
    let ms = assignments(s, plugins_name());
    if ms.len() == 1 && !ms[0].2 && 0 <= ms[0].1 < s.len() && s[ms[0].1] == '(' {
        Some(ms[0].1)
    } else {
        None
    }
}

/// The words, closing index and failure of the plugins array.
pub open spec fn array_scan(s: Seq<char>) -> (Seq<(int, int, Seq<char>)>, Option<int>, bool) {
    match array_open(s) {
        Some(o) => scan_array(s, o + 1),
        None => (seq![], None, false),
    }
}

/// What makes the plugins array unsafe to edit, in the order it is reported.
pub open spec fn plugin_warnings(s: Seq<char>) -> Seq<Seq<char>> {
    let ms = assignments(s, plugins_name());
    if ms.len() != 1 || ms[0].2 {
        seq!["plugins must have one top-level literal array assignment"@]
    } else if array_open(s) is None {
        seq!["plugins is not a literal array"@]
    } else {
        let (toks, close, bad) = array_scan(s);
        (if bad {
            seq!["plugins contains expansions or nested shell syntax"@]
        } else {
            seq![]
        }) + match close {
            None => seq!["plugins array is not safely editable"@],
            Some(c) => if trailing_expression(s, c + 1) {
                seq!["plugins has a trailing shell expression"@]
            } else {
                seq![]
            },
        }
    }
}

/// Whether `c` is a word character as the `regex` crate's Unicode `\w` defines it.
pub uninterp spec fn regex_word_char(c: char) -> bool;

/// Calls `regex::Regex::is_match` with the pattern `^\w$` on the one-character
/// string of `c`. The contract claims only that the answer is
/// `regex_word_char(c)`, a function of `c` alone; which characters are word
/// characters (Unicode `\w`) is left to the `regex` crate.
#[verifier::external_body]
fn word_char(c: char) -> (r: bool)
    ensures
        r == regex_word_char(c),
{
    regex::Regex::new(r"^\w$").unwrap().is_match(&c.to_string())
}

/// `name` at `k` of `p` after a word boundary, then white space, an optional
/// `+` and `=`: the text `\bNAME\s*\+?=`.
pub open spec fn loose_at(p: Seq<char>, k: int, name: Seq<char>) -> bool {
    &&& (k == 0 || !regex_word_char(p[k - 1]))
    &&& starts_with_at(p, k, name)
    &&& {
        let j = skip_white(p, k + name.len());
        (j < p.len() && p[j] == '=') || (j + 1 < p.len() && p[j] == '+' && p[j + 1] == '=')
    }
}

/// How many times `\bNAME\s*\+?=` occurs in `p` from `k` on.
pub open spec fn loose_count(p: Seq<char>, name: Seq<char>, k: int) -> nat
    decreases p.len() - k,
{
    if 0 <= k < p.len() {
        (if loose_at(p, k, name) {
            1nat
        } else {
            0nat
        }) + loose_count(p, name, k + 1)
    } else {
        0
    }
}

/// The part of the line that starts at `a` in which assignments are
/// counted: the text before the first `#` of the line.
pub open spec fn code_part(s: Seq<char>, a: int) -> Seq<char> {
    let line = s.subrange(a, line_end(s, a));
    line.subrange(0, find_char(line, 0, '#'))
}

/// Assignments of `name` before the first `#` of each line, line by line from the
/// line that starts at `a`: top-level ones and ones inside compound commands.
pub open spec fn loose_lines(s: Seq<char>, name: Seq<char>, a: int) -> nat
    decreases s.len() - a,
{
    if 0 <= a <= s.len() {
        proof {
            lemma_find_char_bounds(s, a, '\n');
        }
        loose_count(code_part(s, a), name, 0) + if line_end(s, a) < s.len() {
            loose_lines(s, name, line_end(s, a) + 1)
        } else {
            0
        }
    } else {
        0
    }
}

/// The warning for assignments of `name` that are not top-level.
pub open spec fn nested_warning(s: Seq<char>, name: Seq<char>) -> Seq<Seq<char>> {
    if loose_lines(s, name, 0) > assignments(s, name).len() {
        seq![name + " has non-top-level assignments"@]
    } else {
        seq![]
    }
}

/// All warnings of a parse, in order: the theme's, the plugins array's,
/// then those for nested `plugins` and `ZSH_THEME` assignments.
pub open spec fn parse_warnings(s: Seq<char>) -> Seq<Seq<char>> {
    (match scalar_spec(s, theme_name()) {
        Err(e) => seq![e],
        Ok(_) => seq![],
    }) + plugin_warnings(s) + nested_warning(s, plugins_name()) + nested_warning(s, theme_name())
}

/// The `ZSH_THEME` value span and value, when it is a single literal.
pub open spec fn parse_theme(s: Seq<char>) -> Option<(int, int, Seq<char>)> {
    match scalar_spec(s, theme_name()) {
        Ok(x) => x,
        Err(_) => None,
    }
}

/// `min(n, usize::MAX)`.
pub open spec fn clamp(n: nat) -> int {
    if n <= usize::MAX {
        n as int
    } else {
        usize::MAX as int
    }
}

/// Byte offsets of the first `ZSH_THEME` assignment and of the single
/// `plugins` assignment.
pub open spec fn parse_prefixes(s: Seq<char>) -> Seq<int> {
    let t = assignments(s, theme_name());
    let p = assignments(s, plugins_name());
    (if t.len() > 0 {
        seq![clamp(utf8_len(s.subrange(0, t[0].0)))]
    } else {
        seq![]
    }) + (if p.len() == 1 && !p[0].2 {
        seq![clamp(utf8_len(s.subrange(0, p[0].0)))]
    } else {
        seq![]
    })
}

/// The settings that the app edits.
#[derive(Clone, Debug)]
pub struct Values {
    pub theme: String,
    pub plugins: Vec<String>,
}

impl Values {
    pub open spec fn plugin_names(&self) -> Seq<Seq<char>> {
        strings_model(self.plugins@)
    }
}

/// A parsed `.zshrc`: its source, the values found, and why it may not be
/// safe to edit.
#[derive(Clone, Debug)]
pub struct Document {
    pub source: String,
    pub values: Values,
    pub warnings: Vec<String>,
    pub theme: Option<Scalar>,
    pub plugin_tokens: Vec<Scalar>,
    pub close: Option<usize>,
    pub prefixes: Vec<usize>,
}

pub open spec fn scalars_model(v: Seq<Scalar>) -> Seq<(int, int, Seq<char>)> {
    v.map_values(|t: Scalar| t.model())
}

pub open spec fn strings_model(v: Seq<String>) -> Seq<Seq<char>> {
    v.map_values(|t: String| t@)
}

impl Document {
    pub open spec fn theme_span(&self) -> Option<(int, int, Seq<char>)> {
        match self.theme {
            Some(t) => Some(t.model()),
            None => None,
        }
    }

    pub open spec fn tokens(&self) -> Seq<(int, int, Seq<char>)> {
        scalars_model(self.plugin_tokens@)
    }

    pub open spec fn close_index(&self) -> Option<int> {
        match self.close {
            Some(c) => Some(c as int),
            None => None,
        }
    }

    /// Every field is what parsing `source` gives.
    pub open spec fn parsed_from(&self, s: Seq<char>) -> bool {
        &&& self.source@ == s
        &&& self.values.theme@ == match parse_theme(s) {
            Some(t) => t.2,
            None => Seq::empty(),
        }
        &&& self.values.plugin_names() == array_scan(s).0.map_values(
            |t: (int, int, Seq<char>)| t.2,
        )
        &&& strings_model(self.warnings@) == parse_warnings(s)
        &&& self.theme_span() == parse_theme(s)
        &&& self.tokens() == array_scan(s).0
        &&& self.close_index() == array_scan(s).1
        &&& self.prefixes@.map_values(|p: usize| p as int) == parse_prefixes(s)
    }
}


fn token_stop_at(s: &Vec<char>, i: usize) -> (r: usize)
    requires
        i <= s.len(),
    ensures
        r == token_stop(s@, i as int),
        i <= r <= s.len(),
{
    let mut k = i;
    while k < s.len() && !ascii_space(s[k]) && s[k] != ')' && s[k] != '#'
        invariant
            i <= k <= s.len(),
            token_stop(s@, k as int) == token_stop(s@, i as int),
        decreases s.len() - k,
    {
        k += 1;
    }
    k
}

/// Reads the plugins array from `i` (see `scan_array`).
fn scan_plugins(s: &Vec<char>, i0: usize) -> (r: (Vec<Scalar>, Option<usize>, bool))
    requires
        i0 <= s.len(),
    ensures
        scalars_model(r.0@) == scan_array(s@, i0 as int).0,
        (match r.1 {
            Some(c) => Some(c as int),
            None => None,
        }) == scan_array(s@, i0 as int).1,
        r.2 == scan_array(s@, i0 as int).2,
        r.1 matches Some(c) ==> c < s.len(),
        forall|k: int|
            0 <= k < r.0@.len() ==> (#[trigger] r.0@[k]).start < r.0@[k].end <= s.len(),
{
    let mut tokens: Vec<Scalar> = Vec::new();
    let mut i = i0;
    loop
        invariant
            i0 <= i <= s.len(),
            scan_array(s@, i0 as int) == (
                scalars_model(tokens@) + scan_array(s@, i as int).0,
                scan_array(s@, i as int).1,
                scan_array(s@, i as int).2,
            ),
            forall|k: int|
                0 <= k < tokens@.len() ==> (#[trigger] tokens@[k]).start < tokens@[k].end
                    <= s.len(),
        decreases s.len() - i,
    {
        if i >= s.len() {
            assert(scalars_model(tokens@) + Seq::<(int, int, Seq<char>)>::empty() =~= scalars_model(
                tokens@,
            ));
            return (tokens, None, false);
        }
        let c = s[i];
        if ascii_space(c) {
            i += 1;
        } else if c == '#' {
            proof {
                lemma_find_char_bounds(s@, i as int, '\n');
            }
            i = find_char_at(s, i, '\n');
        } else if c == ')' {
            assert(scalars_model(tokens@) + Seq::<(int, int, Seq<char>)>::empty() =~= scalars_model(
                tokens@,
            ));
            return (tokens, Some(i), false);
        } else {
            proof {
                lemma_token_at_progress(s@, i as int);
            }
            let (a, b, j) = if c == '\'' || c == '"' {
                let k = find_char_at(s, i + 1, c);
                (i + 1, k, if k < s.len() {
                    k + 1
                } else {
                    k
                })
            } else {
                let k = token_stop_at(s, i);
                (i, k, k)
            };
            assert(token_at(s@, i as int) == (s@.subrange(a as int, b as int), j as int));
            if !component_chars(s, a, b) {
                assert(scalars_model(tokens@) + Seq::<(int, int, Seq<char>)>::empty()
                    =~= scalars_model(tokens@));
                return (tokens, None, true);
            }
            let v = slice_chars(s, a, b);
            let ghost before = scalars_model(tokens@);
            tokens.push(Scalar { start: i, end: j, value: string_of(&v) });
            assert(scalars_model(tokens@) =~= before + seq![(i as int, j as int, v@)]);
            i = j;
        }
    }
}

proof fn lemma_loose_count_bound(p: Seq<char>, name: Seq<char>, k: int)
    requires
        0 <= k <= p.len(),
    ensures
        loose_count(p, name, k) <= p.len() - k,
    decreases p.len() - k,
{
    if k < p.len() {
        lemma_loose_count_bound(p, name, k + 1);
    }
}

proof fn lemma_loose_lines_bound(s: Seq<char>, name: Seq<char>, a: int)
    requires
        0 <= a <= s.len(),
    ensures
        loose_lines(s, name, a) <= s.len() - a,
    decreases s.len() - a,
{
    lemma_find_char_bounds(s, a, '\n');
    let line = s.subrange(a, line_end(s, a));
    lemma_find_char_bounds(line, 0, '#');
    lemma_loose_count_bound(code_part(s, a), name, 0);
    if line_end(s, a) < s.len() {
        lemma_loose_lines_bound(s, name, line_end(s, a) + 1);
    }
}

fn loose_count_exec(p: &Vec<char>, name: &Vec<char>) -> (r: usize)
    ensures
        r == loose_count(p@, name@, 0),
{
    let mut k2: usize = p.len();
    let mut count: usize = 0;
    while k2 > 0
        invariant
            k2 <= p.len(),
            count == loose_count(p@, name@, k2 as int),
            count <= p.len() - k2,
        decreases k2,
    {
        k2 -= 1;
        proof {
            lemma_loose_count_bound(p@, name@, k2 as int);
        }
        let j = k2;
        let mut hit = false;
        if starts_with_at_exec(p, j, name) {
            let e = skip_white_at(p, j + name.len());
            let tail = (e < p.len() && p[e] == '=') || (e < p.len() && e + 1 < p.len() && p[e]
                == '+' && p[e + 1] == '=');
            if tail {
                hit = j == 0 || !word_char(p[j - 1]);
            }
        }
        assert(hit == loose_at(p@, j as int, name@));
        if hit {
            count += 1;
        }
    }
    count
}


fn loose_lines_exec(s: &Vec<char>, name: &Vec<char>) -> (r: usize)
    ensures
        r == loose_lines(s@, name@, 0),
{
    proof {
        lemma_loose_lines_bound(s@, name@, 0);
    }
    let mut total: usize = 0;
    let mut a: usize = 0;
    loop
        invariant
            a <= s.len(),
            total + loose_lines(s@, name@, a as int) == loose_lines(s@, name@, 0),
            loose_lines(s@, name@, 0) <= s.len(),
        decreases s.len() - a,
    {
        proof {
            lemma_find_char_bounds(s@, a as int, '\n');
        }
        let e = find_char_at(s, a, '\n');
        let line = slice_chars(s, a, e);
        proof {
            lemma_find_char_bounds(line@, 0, '#');
        }
        let h = find_char_at(&line, 0, '#');
        let part = slice_chars(&line, 0, h);
        assert(part@ == code_part(s@, a as int));
        let n = loose_count_exec(&part, name);
        total = total + n;
        if e < s.len() {
            a = e + 1;
        } else {
            return total;
        }
    }
}

impl Document {
    /// Parses a `.zshrc`. Nothing is evaluated: `ZSH_THEME` and `plugins`
    /// are recognized only as top-level literal assignments, and anything that
    /// makes an edit unsafe is reported in `warnings`.
    pub fn parse(source: String) -> (d: Document)
        ensures
            d.parsed_from(source@),
            d.warnings@.len() == 0 ==> d.spans_ok(),
    {
        let s = chars_of(source.as_str());
        let mut warnings: Vec<String> = Vec::new();
        let mut prefixes: Vec<usize> = Vec::new();
        let theme = match scalar(&s, "ZSH_THEME") {
            Ok(x) => x,
            Err(e) => {
                warnings.push(e);
                None
            },
        };
        let ghost w0 = strings_model(warnings@);
        assert(w0 =~= match scalar_spec(s@, theme_name()) {
            Err(e) => seq![e],
            Ok(_) => seq![],
        });
        let tname = chars_of("ZSH_THEME");
        let tm = find_assignments(&s, &tname);
        if tm.len() > 0 {
            prefixes.push(byte_offset(&s, tm[0].0));
        }
        let pname = chars_of("plugins");
        let pm = find_assignments(&s, &pname);
        let mut tokens: Vec<Scalar> = Vec::new();
        let mut close: Option<usize> = None;
        let ghost pw: Seq<Seq<char>> = plugin_warnings(s@);
        if pm.len() != 1 || pm[0].2 {
            warnings.push(owned("plugins must have one top-level literal array assignment"));
        } else {
            prefixes.push(byte_offset(&s, pm[0].0));
            let start = pm[0].1;
            if !(start < s.len() && s[start] == '(') {
                warnings.push(owned("plugins is not a literal array"));
            } else {
                let (t, c, bad) = scan_plugins(&s, start + 1);
                tokens = t;
                close = c;
                if bad {
                    warnings.push(owned("plugins contains expansions or nested shell syntax"));
                }
                match close {
                    None => {
                        warnings.push(owned("plugins array is not safely editable"));
                    },
                    Some(c) => {
                        if trailing_expression_at(&s, c + 1) {
                            warnings.push(owned("plugins has a trailing shell expression"));
                        }
                    },
                }
            }
        }
        assert(strings_model(warnings@) =~= w0 + pw);
        let ghost w1 = strings_model(warnings@);
        let lp = loose_lines_exec(&s, &pname);
        if lp > pm.len() {
            warnings.push(concat("plugins", " has non-top-level assignments"));
        }
        assert(strings_model(warnings@) =~= w1 + nested_warning(s@, plugins_name()));
        let ghost w2 = strings_model(warnings@);
        let lt = loose_lines_exec(&s, &tname);
        if lt > tm.len() {
            warnings.push(concat("ZSH_THEME", " has non-top-level assignments"));
        }
        assert(strings_model(warnings@) =~= w2 + nested_warning(s@, theme_name()));
        assert(prefixes@.map_values(|p: usize| p as int) =~= parse_prefixes(s@));
        let theme_value = match &theme {
            Some(t) => t.value.clone(),
            None => String::new(),
        };
        let mut plugins: Vec<String> = Vec::new();
        let mut i: usize = 0;
        while i < tokens.len()
            invariant
                i <= tokens.len(),
                strings_model(plugins@) == scalars_model(tokens@).take(
                    i as int,
                ).map_values(|t: (int, int, Seq<char>)| t.2),
            decreases tokens.len() - i,
        {
            plugins.push(tokens[i].value.clone());
            assert(scalars_model(tokens@).take(i + 1) =~= scalars_model(tokens@).take(
                i as int,
            ).push(scalars_model(tokens@)[i as int]));
            assert(strings_model(plugins@) =~= scalars_model(tokens@).take(
                i as int,
            ).map_values(|t: (int, int, Seq<char>)| t.2).push(tokens@[i as int].value@));
            i += 1;
        }
        assert(scalars_model(tokens@).take(tokens.len() as int) =~= scalars_model(tokens@));
        let d = Document {
            source,
            values: Values { theme: theme_value, plugins },
            warnings,
            theme,
            plugin_tokens: tokens,
            close,
            prefixes,
        };
        assert(d.source@ == s@);
        assert(d.values.theme@ == match parse_theme(s@) {
            Some(t) => t.2,
            None => Seq::empty(),
        });
        assert(d.theme_span() == parse_theme(s@));
        assert(d.tokens() == array_scan(s@).0);
        assert(d.close_index() == array_scan(s@).1);
        assert(d.values.plugin_names() == array_scan(s@).0.map_values(
            |t: (int, int, Seq<char>)| t.2,
        ));
        proof {
            if d.warnings@.len() == 0 {
                d.lemma_parsed_spans();
            }
        }
        d
    }
}

/// `ws` joined by `sep`.
pub open spec fn join(ws: Seq<Seq<char>>, sep: Seq<char>) -> Seq<char>
    decreases ws.len(),
{
    if ws.len() == 0 {
        Seq::empty()
    } else if ws.len() == 1 {
        ws[0]
    } else {
        join(ws.drop_last(), sep) + sep + ws.last()
    }
}

/// Each word of `ws` preceded by a space.
pub open spec fn spaced(ws: Seq<Seq<char>>) -> Seq<char>
    decreases ws.len(),
{
    if ws.len() == 0 {
        Seq::empty()
    } else {
        spaced(ws.drop_last()) + seq![' '] + ws.last()
    }
}

/// Two entries of `ws` are equal.
pub open spec fn has_duplicate(ws: Seq<Seq<char>>) -> bool {
    exists|i: int, j: int| 0 <= i < j < ws.len() && ws[i] == ws[j]
}

/// The entries of `ws` that `current` does not hold, in order.
pub open spec fn extras(ws: Seq<Seq<char>>, current: Seq<Seq<char>>) -> Seq<Seq<char>>
    decreases ws.len(),
{
    if ws.len() == 0 {
        Seq::empty()
    } else if current.contains(ws.last()) {
        extras(ws.drop_last(), current)
    } else {
        extras(ws.drop_last(), current).push(ws.last())
    }
}

/// Deletions of the array words whose value `keep` does not hold.
pub open spec fn deletions(toks: Seq<(int, int, Seq<char>)>, keep: Seq<Seq<char>>) -> Seq<
    (int, int, Seq<char>),
>
    decreases toks.len(),
{
    if toks.len() == 0 {
        Seq::empty()
    } else if keep.contains(toks.last().2) {
        deletions(toks.drop_last(), keep)
    } else {
        deletions(toks.drop_last(), keep).push((toks.last().0, toks.last().1, Seq::empty()))
    }
}

/// `s[pos..]` with each of `edits` (start, end, replacement), taken in order,
/// put in place of `s[start..end]`.
pub open spec fn splice(s: Seq<char>, edits: Seq<(int, int, Seq<char>)>, pos: int) -> Seq<char>
    decreases edits.len(),
{
    if edits.len() == 0 {
        s.subrange(pos, s.len() as int)
    } else {
        s.subrange(pos, edits[0].0) + edits[0].2 + splice(s, edits.drop_first(), edits[0].1)
    }
}

/// The edits come in order, do not overlap, and lie in `s[pos..]`.
pub open spec fn edits_ordered(s: Seq<char>, edits: Seq<(int, int, Seq<char>)>, pos: int) -> bool
    decreases edits.len(),
{
    if edits.len() == 0 {
        0 <= pos <= s.len()
    } else {
        &&& 0 <= pos <= edits[0].0 <= edits[0].1 <= s.len()
        &&& edits_ordered(s, edits.drop_first(), edits[0].1)
    }
}

impl Document {
    /// The array words come in order inside the array, the theme value lies
    /// wholly before or wholly after the array, and all spans lie in the source.
    pub open spec fn spans_ok(&self) -> bool {
        let s = self.source@;
        let toks = self.tokens();
        &&& forall|k: int| 0 <= k < toks.len() ==> 0 <= (#[trigger] toks[k]).0 <= toks[k].1 <= s.len()
        &&& forall|i: int, j: int| 0 <= i < j < toks.len() ==> (#[trigger] toks[i]).1 <= (#[trigger] toks[j]).0
        &&& (self.close_index() matches Some(c) ==> c <= s.len() && (toks.len() > 0 ==> toks.last().1 <= c))
        &&& (self.theme_span() matches Some(t) ==> {
            &&& 0 <= t.0 <= t.1 <= s.len()
            &&& self.theme_first() || self.theme_last()
        })
    }

    /// The theme value lies before every array word and the closing `)`.
    pub open spec fn theme_first(&self) -> bool {
        self.theme_span() matches Some(t) && (self.tokens().len() > 0 ==> t.1 <= self.tokens()[0].0)
            && (self.close_index() matches Some(c) ==> t.1 <= c)
    }

    /// The theme value lies after the closing `)` (or after every word, when
    /// the array has no `)`).
    pub open spec fn theme_last(&self) -> bool {
        self.theme_span() matches Some(t) && (self.tokens().len() > 0 ==> self.tokens().last().1
            <= t.0) && (self.close_index() matches Some(c) ==> c < t.0)
    }

    /// The edits that bring the source to `v`, in order.
    pub open spec fn edits_for(&self, v: Values) -> Seq<(int, int, Seq<char>)> {
        let t = self.theme_span()->0;
        let theme = if v.theme@ != self.values.theme@ && self.theme_span() is Some {
            seq![(t.0, t.1, seq!['"'] + v.theme@ + seq!['"'])]
        } else {
            Seq::empty()
        };
        let extra = extras(v.plugin_names(), self.values.plugin_names());
        let c = self.close_index()->0;
        let array = deletions(self.tokens(), v.plugin_names()) + if extra.len() > 0
            && self.close_index() is Some {
            seq![(c, c, spaced(extra))]
        } else {
            Seq::empty()
        };
        if self.theme_first() {
            theme + array
        } else {
            array + theme
        }
    }

    /// What `edit(v)` gives: the source with only the theme value, the
    /// removed words and the added words changed; or why it refuses.
    pub open spec fn edit_result(&self, v: Values) -> Result<Seq<char>, Seq<char>> {
        let names = v.plugin_names();
        if self.warnings@.len() > 0 {
            Err(join(strings_model(self.warnings@), "; "@))
        } else if !is_theme_literal(v.theme@) || exists|k: int|
            0 <= k < names.len() && !is_component(#[trigger] names[k]) {
            Err("Theme or plugin name contains shell syntax"@)
        } else if has_duplicate(names) {
            Err("Duplicate plugin name"@)
        } else if v.theme@ != self.values.theme@ && self.theme_span() is None {
            Err("ZSH_THEME is missing. Add it before sourcing Oh My Zsh in the source editor."@)
        } else if extras(names, self.values.plugin_names()).len() > 0 && self.close_index() is None {
            Err("Missing plugins array"@)
        } else {
            Ok(splice(self.source@, self.edits_for(v), 0))
        }
    }
}


/// Edits in sequence: each within `[lo, hi]` of `s`, none overlapping.
pub open spec fn edits_sorted(e: Seq<(int, int, Seq<char>)>, lo: int, hi: int) -> bool {
    &&& forall|k: int| 0 <= k < e.len() ==> lo <= (#[trigger] e[k]).0 <= e[k].1 <= hi
    &&& forall|i: int, j: int| 0 <= i < j < e.len() ==> (#[trigger] e[i]).1 <= (#[trigger] e[j]).0
}

proof fn lemma_sorted_ordered(s: Seq<char>, e: Seq<(int, int, Seq<char>)>, pos: int)
    requires
        0 <= pos <= s.len(),
        edits_sorted(e, pos, s.len() as int),
    ensures
        edits_ordered(s, e, pos),
    decreases e.len(),
{
    if e.len() > 0 {
        let r = e.drop_first();
        assert forall|k: int| 0 <= k < r.len() implies e[0].1 <= (#[trigger] r[k]).0 <= r[k].1 <= s.len() by {
            assert(r[k] == e[k + 1]);
        }
        assert forall|i: int, j: int| 0 <= i < j < r.len() implies (#[trigger] r[i]).1 <= (#[trigger] r[j]).0 by {
            assert(r[i] == e[i + 1] && r[j] == e[j + 1]);
        }
        lemma_sorted_ordered(s, r, e[0].1);
    }
}

proof fn lemma_sorted_concat(a: Seq<(int, int, Seq<char>)>, b: Seq<(int, int, Seq<char>)>, lo: int, mid: int, hi: int)
    requires
        lo <= mid <= hi,
        edits_sorted(a, lo, mid),
        edits_sorted(b, mid, hi),
    ensures
        edits_sorted(a + b, lo, hi),
{
    let c = a + b;
    assert forall|k: int| 0 <= k < c.len() implies lo <= (#[trigger] c[k]).0 <= c[k].1 <= hi by {
        if k < a.len() {
            assert(c[k] == a[k]);
        } else {
            assert(c[k] == b[k - a.len()]);
        }
    }
    assert forall|i: int, j: int| 0 <= i < j < c.len() implies (#[trigger] c[i]).1 <= (#[trigger] c[j]).0 by {
        if j < a.len() {
            assert(c[i] == a[i] && c[j] == a[j]);
        } else if i < a.len() {
            assert(c[i] == a[i] && c[j] == b[j - a.len()]);
        } else {
            assert(c[i] == b[i - a.len()] && c[j] == b[j - a.len()]);
        }
    }
}

proof fn lemma_deletions_sorted(toks: Seq<(int, int, Seq<char>)>, keep: Seq<Seq<char>>, lo: int, hi: int)
    requires
        forall|k: int| 0 <= k < toks.len() ==> lo <= (#[trigger] toks[k]).0 <= toks[k].1 <= hi,
        forall|i: int, j: int| 0 <= i < j < toks.len() ==> (#[trigger] toks[i]).1 <= (#[trigger] toks[j]).0,
    ensures
        edits_sorted(deletions(toks, keep), lo, if toks.len() > 0 { toks.last().1 } else { lo }),
        toks.len() == 0 ==> deletions(toks, keep).len() == 0,
    decreases toks.len(),
{
    if toks.len() > 0 {
        let t = toks.drop_last();
        assert forall|i: int, j: int| 0 <= i < j < t.len() implies (#[trigger] t[i]).1 <= (#[trigger] t[j]).0 by {
            assert(t[i] == toks[i] && t[j] == toks[j]);
        }
        assert forall|k: int| 0 <= k < t.len() implies lo <= (#[trigger] t[k]).0 <= t[k].1 <= hi by {
            assert(t[k] == toks[k]);
        }
        lemma_deletions_sorted(t, keep, lo, hi);
        let d = deletions(t, keep);
        let last = toks.last();
        let mid = if t.len() > 0 { t.last().1 } else { lo };
        if t.len() > 0 {
            assert(t.last() == toks[t.len() - 1]);
            assert(mid <= last.0);
        }
        if !keep.contains(last.2) {
            let e = seq![(last.0, last.1, Seq::<char>::empty())];
            assert(edits_sorted(e, mid, last.1));
            lemma_sorted_concat(d, e, lo, mid, last.1);
            assert(d.push((last.0, last.1, Seq::<char>::empty())) =~= d + e);
        } else {
            assert(edits_sorted(d, lo, last.1)) by {
                assert forall|k: int| 0 <= k < d.len() implies lo <= (#[trigger] d[k]).0 <= d[k].1 <= last.1 by {
                }
            }
        }
    }
}

impl Document {
    proof fn lemma_edits_ordered(&self, v: Values)
        requires
            self.spans_ok(),
        ensures
            edits_ordered(self.source@, self.edits_for(v), 0),
    {
        let s = self.source@;
        let toks = self.tokens();
        let extra = extras(v.plugin_names(), self.values.plugin_names());
        let t = self.theme_span()->0;
        let theme = if v.theme@ != self.values.theme@ && self.theme_span() is Some {
            seq![(t.0, t.1, seq!['"'] + v.theme@ + seq!['"'])]
        } else {
            Seq::empty()
        };
        let c = self.close_index()->0;
        let ins = if extra.len() > 0 && self.close_index() is Some {
            seq![(c, c, spaced(extra))]
        } else {
            Seq::empty()
        };
        let dels = deletions(toks, v.plugin_names());
        let lo = if self.theme_first() { t.1 } else { 0 };
        let end = if toks.len() > 0 { toks.last().1 } else { lo };
        let hi = if self.close_index() is Some { c } else { end };
        assert forall|k: int| 0 <= k < toks.len() implies lo <= (#[trigger] toks[k]).0 <= toks[k].1 <= s.len() by {
            if self.theme_first() {
                assert(t.1 <= toks[0].0);
                if k > 0 {
                    assert(toks[0].1 <= toks[k].0);
                }
            }
        }
        lemma_deletions_sorted(toks, v.plugin_names(), lo, s.len() as int);
        if toks.len() > 0 {
            assert(toks.last() == toks[toks.len() - 1]);
        }
        assert(lo <= end <= hi <= s.len());
        assert(edits_sorted(ins, hi, hi));
        lemma_sorted_concat(dels, ins, lo, hi, hi);
        let array = dels + ins;
        if self.theme_first() {
            assert(edits_sorted(theme, 0, t.1));
            lemma_sorted_concat(theme, array, 0, lo, hi);
            lemma_sorted_ordered(s, theme + array, 0);
        } else {
            if self.theme_span() is Some {
                assert(self.theme_last());
                assert(hi <= t.0);
            }
            let top = if self.theme_span() is Some { t.0 } else { hi };
            assert(edits_sorted(theme, top, s.len() as int));
            assert(edits_sorted(array, 0, top));
            lemma_sorted_concat(array, theme, 0, top, s.len() as int);
            lemma_sorted_ordered(s, array + theme, 0);
        }
    }
}


/// `ws` joined by `sep`.
pub fn join_strings(ws: &Vec<String>, sep: &str) -> (r: String)
    ensures
        r@ == join(strings_model(ws@), sep@),
{
    let ghost m = strings_model(ws@);
    let sepv = chars_of(sep);
    let mut out: Vec<char> = Vec::new();
    let mut i: usize = 0;
    while i < ws.len()
        invariant
            i <= ws.len(),
            m == strings_model(ws@),
            sepv@ == sep@,
            out@ == join(m.take(i as int), sep@),
        decreases ws.len() - i,
    {
        if i > 0 {
            extend_chars(&mut out, &sepv);
        }
        let w = chars_of(ws[i].as_str());
        extend_chars(&mut out, &w);
        assert(m.take(i + 1).drop_last() =~= m.take(i as int));
        if i == 0 {
            assert(m.take(1) =~= seq![m[0]]);
        }
        i += 1;
    }
    assert(m.take(ws.len() as int) =~= m);
    string_of(&out)
}

fn all_components(v: &Vec<String>) -> (r: bool)
    ensures
        r == !exists|k: int| 0 <= k < v@.len() && !is_component(#[trigger] strings_model(v@)[k]),
{
    let mut i: usize = 0;
    while i < v.len()
        invariant
            i <= v.len(),
            forall|k: int| 0 <= k < i ==> is_component(#[trigger] strings_model(v@)[k]),
        decreases v.len() - i,
    {
        if !component(v[i].as_str()) {
            assert(!is_component(strings_model(v@)[i as int]));
            return false;
        }
        i += 1;
    }
    true
}

fn duplicate(v: &Vec<String>) -> (r: bool)
    ensures
        r == has_duplicate(strings_model(v@)),
{
    let ghost m = strings_model(v@);
    let mut j: usize = 0;
    while j < v.len()
        invariant
            j <= v.len(),
            m == strings_model(v@),
            forall|a: int, b: int| 0 <= a < b < j ==> m[a] != m[b],
        decreases v.len() - j,
    {
        let mut i: usize = 0;
        while i < j
            invariant
                i <= j < v.len(),
                m == strings_model(v@),
                forall|a: int| 0 <= a < i ==> m[a] != m[j as int],
            decreases j - i,
        {
            if v[i] == v[j] {
                assert(m[i as int] == m[j as int]);
                return true;
            }
            i += 1;
        }
        j += 1;
    }
    false
}

fn contains_string(v: &Vec<String>, x: &String) -> (r: bool)
    ensures
        r == strings_model(v@).contains(x@),
{
    let mut i: usize = 0;
    while i < v.len()
        invariant
            i <= v.len(),
            forall|k: int| 0 <= k < i ==> strings_model(v@)[k] != x@,
        decreases v.len() - i,
    {
        if v[i] == *x {
            assert(strings_model(v@)[i as int] == x@);
            return true;
        }
        i += 1;
    }
    false
}

fn extras_exec(ws: &Vec<String>, current: &Vec<String>) -> (r: Vec<String>)
    ensures
        strings_model(r@) == extras(strings_model(ws@), strings_model(current@)),
{
    let ghost m = strings_model(ws@);
    let mut out: Vec<String> = Vec::new();
    let mut i: usize = 0;
    while i < ws.len()
        invariant
            i <= ws.len(),
            m == strings_model(ws@),
            strings_model(out@) == extras(m.take(i as int), strings_model(current@)),
        decreases ws.len() - i,
    {
        assert(m.take(i + 1).drop_last() =~= m.take(i as int));
        assert(m.take(i + 1).last() == ws@[i as int]@);
        if !contains_string(current, &ws[i]) {
            let ghost before = strings_model(out@);
            out.push(ws[i].clone());
            assert(strings_model(out@) =~= before.push(ws@[i as int]@));
        }
        i += 1;
    }
    assert(m.take(ws.len() as int) =~= m);
    out
}

fn spaced_exec(ws: &Vec<String>) -> (r: Vec<char>)
    ensures
        r@ == spaced(strings_model(ws@)),
{
    let ghost m = strings_model(ws@);
    let mut out: Vec<char> = Vec::new();
    let mut i: usize = 0;
    while i < ws.len()
        invariant
            i <= ws.len(),
            m == strings_model(ws@),
            out@ == spaced(m.take(i as int)),
        decreases ws.len() - i,
    {
        out.push(' ');
        let w = chars_of(ws[i].as_str());
        extend_chars(&mut out, &w);
        assert(m.take(i + 1).drop_last() =~= m.take(i as int));
        assert(out@ =~= spaced(m.take(i as int)) + seq![' '] + m[i as int]);
        i += 1;
    }
    assert(m.take(ws.len() as int) =~= m);
    out
}

pub open spec fn edits_model(v: Seq<(usize, usize, Vec<char>)>) -> Seq<(int, int, Seq<char>)> {
    v.map_values(|e: (usize, usize, Vec<char>)| (e.0 as int, e.1 as int, e.2@))
}

fn splice_exec(s: &Vec<char>, edits: &Vec<(usize, usize, Vec<char>)>) -> (r: Vec<char>)
    requires
        edits_ordered(s@, edits_model(edits@), 0),
    ensures
        r@ == splice(s@, edits_model(edits@), 0),
{
    let ghost e = edits_model(edits@);
    let mut out: Vec<char> = Vec::new();
    let mut pos: usize = 0;
    let mut k: usize = 0;
    assert(e.skip(0) =~= e);
    while k < edits.len()
        invariant
            k <= edits.len(),
            e == edits_model(edits@),
            pos <= s.len(),
            edits_ordered(s@, e.skip(k as int), pos as int),
            splice(s@, e, 0) == out@ + splice(s@, e.skip(k as int), pos as int),
        decreases edits.len() - k,
    {
        let a = edits[k].0;
        let b = edits[k].1;
        assert(e.skip(k as int)[0] == e[k as int]);
        assert(e.skip(k as int).drop_first() =~= e.skip(k + 1));
        let part = slice_chars(s, pos, a);
        extend_chars(&mut out, &part);
        extend_chars(&mut out, &edits[k].2);
        pos = b;
        k += 1;
    }
    let rest = slice_chars(s, pos, s.len());
    extend_chars(&mut out, &rest);
    out
}

/// `"theme"`.
fn quoted(v: &String) -> (r: Vec<char>)
    ensures
        r@ == seq!['"'] + v@ + seq!['"'],
{
    let mut out: Vec<char> = Vec::new();
    out.push('"');
    let w = chars_of(v.as_str());
    extend_chars(&mut out, &w);
    out.push('"');
    out
}

impl Document {
    /// The source with `values` written in: the theme value replaced, array
    /// words that `values` drops deleted, and new ones appended before `)`.
    /// Refuses a document with warnings, names that are not literal, and
    /// duplicates (see `edit_result`).
    pub fn edit(&self, values: &Values) -> (r: Result<String, String>)
        requires
            self.warnings@.len() == 0 ==> self.spans_ok(),
        ensures
            match r {
                Ok(x) => self.edit_result(*values) == Ok::<Seq<char>, Seq<char>>(x@),
                Err(e) => self.edit_result(*values) == Err::<Seq<char>, Seq<char>>(e@),
            },
    {
        if self.warnings.len() > 0 {
            return Err(join_strings(&self.warnings, "; "));
        }
        if !theme_literal(values.theme.as_str()) || !all_components(&values.plugins) {
            return Err(owned("Theme or plugin name contains shell syntax"));
        }
        if duplicate(&values.plugins) {
            return Err(owned("Duplicate plugin name"));
        }
        let theme_changed = values.theme != self.values.theme;
        if theme_changed && self.theme.is_none() {
            return Err(
                owned("ZSH_THEME is missing. Add it before sourcing Oh My Zsh in the source editor."),
            );
        }
        let extra = extras_exec(&values.plugins, &self.values.plugins);
        if extra.len() > 0 && self.close.is_none() {
            return Err(owned("Missing plugins array"));
        }
        let ghost toks = self.tokens();
        let ghost keep = values.plugin_names();
        let mut array: Vec<(usize, usize, Vec<char>)> = Vec::new();
        let mut i: usize = 0;
        while i < self.plugin_tokens.len()
            invariant
                i <= self.plugin_tokens.len(),
                toks == self.tokens(),
                keep == values.plugin_names(),
                edits_model(array@) == deletions(toks.take(i as int), keep),
            decreases self.plugin_tokens.len() - i,
        {
            let t = &self.plugin_tokens[i];
            assert(toks.take(i + 1).drop_last() =~= toks.take(i as int));
            assert(toks.take(i + 1).last() == t.model());
            if !contains_string(&values.plugins, &t.value) {
                let ghost before = edits_model(array@);
                array.push((t.start, t.end, Vec::new()));
                assert(edits_model(array@) =~= before.push((t.start as int, t.end as int, Seq::<char>::empty())));
            }
            i += 1;
        }
        assert(toks.take(self.plugin_tokens.len() as int) =~= toks);
        if extra.len() > 0 {
            let c = self.close.unwrap();
            let ghost before = edits_model(array@);
            array.push((c, c, spaced_exec(&extra)));
            assert(edits_model(array@) =~= before + seq![(c as int, c as int, spaced(strings_model(extra@)))]);
        } else {
            assert(edits_model(array@) =~= edits_model(array@) + Seq::<(int, int, Seq<char>)>::empty());
        }
        let first = match &self.theme {
            Some(t) => (self.plugin_tokens.len() == 0 || t.end <= self.plugin_tokens[0].start)
                && match self.close {
                Some(c) => t.end <= c,
                None => true,
            },
            None => false,
        };
        assert(first == self.theme_first());
        let mut edits: Vec<(usize, usize, Vec<char>)> = Vec::new();
        let ghost tspan = self.theme_span()->0;
        let ghost theme_model: Seq<(int, int, Seq<char>)> = if theme_changed && self.theme.is_some() {
            seq![(tspan.0, tspan.1, seq!['"'] + values.theme@ + seq!['"'])]
        } else {
            Seq::empty()
        };
        if first {
            if theme_changed {
                let t = self.theme.as_ref().unwrap();
                edits.push((t.start, t.end, quoted(&values.theme)));
            }
            let ghost mid = edits_model(edits@);
            assert(mid =~= theme_model);
            edits.append(&mut array);
        } else {
            edits.append(&mut array);
            if theme_changed && self.theme.is_some() {
                let t = self.theme.as_ref().unwrap();
                let ghost before = edits_model(edits@);
                edits.push((t.start, t.end, quoted(&values.theme)));
                assert(edits_model(edits@) =~= before + theme_model);
            } else {
                assert(edits_model(edits@) =~= edits_model(edits@) + theme_model);
            }
        }
        assert(edits_model(edits@) =~= self.edits_for(*values));
        proof {
            self.lemma_edits_ordered(*values);
        }
        let src = chars_of(self.source.as_str());
        let out = splice_exec(&src, &edits);
        Ok(string_of(&out))
    }
}


/// No character of `s[a..b]` is a newline, `#`, a quote or `)`.
pub open spec fn plain_range(s: Seq<char>, a: int, b: int) -> bool {
    forall|j: int|
        a <= j < b ==> !(#[trigger] s[j] == '\n' || s[j] == '#' || s[j] == '\'' || s[j] == '"' || s[j]
            == ')')
}

/// `name` is non-empty, starts with a character other than a blank or `e`,
/// and holds no newline, `#`, quote or `)`.
pub open spec fn plain_name(n: Seq<char>) -> bool {
    &&& n.len() > 0
    &&& !is_blank(n[0])
    &&& n[0] != 'e'
    &&& plain_range(n, 0, n.len() as int)
}

/// End of the assignment at `p` (or `p` when there is none).
pub open spec fn assign_end(s: Seq<char>, p: int, n: Seq<char>) -> int {
    match assign_at(s, p, n) {
        Some(r) => r.0,
        None => p,
    }
}

/// End of `name=` text at `k` (or `k` when there is none).
pub open spec fn after_end(s: Seq<char>, k: int, n: Seq<char>) -> int {
    match after_name(s, k, n) {
        Some(r) => r.0,
        None => k,
    }
}

proof fn lemma_export_try_none(s: Seq<char>, n: Seq<char>, q: int, k: int)
    requires
        plain_name(n),
        0 <= q <= k,
        k < skip_blanks(s, q) || (k == q),
        q <= s.len(),
    ensures
        export_try(s, n, q, k) is None,
    decreases k - q,
{
    lemma_skip_blanks_bounds(s, q);
    if k > q {
        assert(is_blank(s[k]));
        assert(!starts_with_at(s, k, n)) by {
            if starts_with_at(s, k, n) {
                assert(s.subrange(k, k + n.len())[0] == s[k]);
            }
        }
        lemma_export_try_none(s, n, q, k - 1);
    }
}

/// Where the name of an assignment at `p` begins: after `export` and blanks,
/// or at `p`.
pub open spec fn name_start(s: Seq<char>, p: int) -> int {
    if starts_with_at(s, p, export_word()) && p + 6 < s.len() && is_blank(s[p + 6]) {
        skip_blanks(s, p + 6)
    } else {
        p
    }
}

proof fn lemma_assign_shape(s: Seq<char>, p: int, n: Seq<char>)
    requires
        plain_name(n),
        0 <= p <= s.len(),
        assign_at(s, p, n) is Some,
    ensures
        assign_at(s, p, n) == after_name(s, name_start(s, p), n),
        plain_range(s, p, assign_end(s, p, n)),
        p <= name_start(s, p) < assign_end(s, p, n) <= s.len(),
        s[name_start(s, p)] == n[0],
        exists|x: int| p <= x < assign_end(s, p, n) && s[x] == '=',
{
    reveal_strlit("export");
    let ns = name_start(s, p);
    if starts_with_at(s, p, export_word()) && p + 6 < s.len() && is_blank(s[p + 6]) {
        lemma_skip_blanks_bounds(s, p + 6);
        if ns > p + 6 {
            lemma_export_try_none(s, n, p + 6, ns - 1);
        }
        if after_name(s, ns, n) is None {
            assert(export_try(s, n, p + 6, ns) is None);
            assert(s[p] == 'e');
            assert(!starts_with_at(s, p, n)) by {
                if starts_with_at(s, p, n) {
                    assert(s.subrange(p, p + n.len())[0] == s[p]);
                }
            }
            assert(false);
        }
        assert forall|j: int| p <= j < p + 6 implies !(#[trigger] s[j] == '\n' || s[j] == '#' || s[j]
            == '\'' || s[j] == '"' || s[j] == ')') by {
            assert(s.subrange(p, p + 6)[j - p] == s[j]);
        }
    }
    lemma_after_name_plain(s, ns, n);
}

proof fn lemma_after_name_plain(s: Seq<char>, k: int, n: Seq<char>)
    requires
        plain_name(n),
        0 <= k <= s.len(),
        after_name(s, k, n) is Some,
    ensures
        plain_range(s, k, after_end(s, k, n)),
        k < after_end(s, k, n) <= s.len(),
        s[k] == n[0],
        exists|x: int| k <= x < after_end(s, k, n) && s[x] == '=',
{
    let e = after_end(s, k, n);
    let m = k + n.len();
    assert(s.subrange(k, m) == n);
    assert(s[k] == s.subrange(k, m)[0]);
    lemma_skip_blanks_bounds(s, m);
    let j = skip_blanks(s, m);
    if j + 1 < s.len() && s[j] == '+' && s[j + 1] == '=' {
        lemma_skip_blanks_bounds(s, j + 2);
        assert(s[j + 1] == '=');
    } else {
        lemma_skip_blanks_bounds(s, j + 1);
        assert(s[j] == '=');
    }
    assert forall|i: int| k <= i < e implies !(#[trigger] s[i] == '\n' || s[i] == '#' || s[i]
        == '\'' || s[i] == '"' || s[i] == ')') by {
        if i < m {
            assert(s.subrange(k, m)[i - k] == s[i]);
            assert(n[i - k] == s[i]);
        }
    }
}

proof fn lemma_matches_from_shape(s: Seq<char>, n: Seq<char>, i: int)
    ensures
        forall|k: int|
            0 <= k < matches_from(s, n, i).len() ==> {
                let m = #[trigger] matches_from(s, n, i)[k];
                &&& i <= m.0 <= s.len()
                &&& at_line_start(s, m.0)
                &&& assign_at(s, m.0, n) == Some((m.1, m.2))
            },
    decreases s.len() + 1 - i,
{
    if 0 <= i <= s.len() {
        if at_line_start(s, i) && assign_at(s, i, n) is Some {
            let (e, plus) = assign_at(s, i, n)->0;
            lemma_assign_at_progress(s, i, n);
            lemma_matches_from_shape(s, n, e);
            let r = matches_from(s, n, e);
            assert forall|k: int| 0 <= k < matches_from(s, n, i).len() implies {
                let m = #[trigger] matches_from(s, n, i)[k];
                &&& i <= m.0 <= s.len()
                &&& at_line_start(s, m.0)
                &&& assign_at(s, m.0, n) == Some((m.1, m.2))
            } by {
                if k > 0 {
                    assert(matches_from(s, n, i)[k] == r[k - 1]);
                }
            }
        } else {
            lemma_matches_from_shape(s, n, i + 1);
        }
    }
}

proof fn lemma_token_stop_char(s: Seq<char>, i: int)
    requires
        0 <= i <= s.len(),
    ensures
        token_stop(s, i) < s.len() ==> is_ascii_space(s[token_stop(s, i)]) || s[token_stop(s, i)]
            == ')' || s[token_stop(s, i)] == '#',
        forall|m: int|
            i <= m < s.len() && (is_ascii_space(s[m]) || s[m] == ')' || s[m] == '#') ==> token_stop(
                s,
                i,
            ) <= m,
    decreases s.len() - i,
{
    if i < s.len() && !is_ascii_space(s[i]) && s[i] != ')' && s[i] != '#' {
        lemma_token_stop_char(s, i + 1);
    }
}

proof fn lemma_find_char_first(s: Seq<char>, i: int, c: char, m: int)
    requires
        0 <= i <= m < s.len(),
        s[m] == c,
    ensures
        find_char(s, i, c) <= m,
{
    lemma_find_char_bounds(s, i, c);
}

/// The array reading meets the `=` of an assignment line at `x` whose
/// text from the line start `q` is plain: it fails, or the array closed before `q`.
proof fn lemma_scan_meets_assignment(s: Seq<char>, i: int, q: int, x: int)
    requires
        0 <= i <= x < s.len(),
        q <= x,
        s[x] == '=',
        plain_range(s, q, x + 1),
        i >= q || (0 < q && s[q - 1] == '\n'),
    ensures
        scan_array(s, i).2 || (scan_array(s, i).1 matches Some(c) && c < q),
    decreases s.len() - i,
{
    let c = s[i];
    if is_ascii_space(c) {
        if i < q {
            lemma_scan_meets_assignment(s, i + 1, q, x);
        } else {
            assert(i != x);
            lemma_scan_meets_assignment(s, i + 1, q, x);
        }
    } else if c == '#' {
        assert(i < q);
        lemma_find_char_bounds(s, i, '\n');
        lemma_find_char_first(s, i, '\n', q - 1);
        lemma_scan_meets_assignment(s, line_end(s, i), q, x);
    } else if c == ')' {
        assert(i < q);
    } else {
        lemma_token_at_progress(s, i);
        let (v, j) = token_at(s, i);
        if c == '\'' || c == '"' {
            assert(i < q);
            let k = find_char(s, i + 1, c);
            lemma_find_char_bounds(s, i + 1, c);
            if k >= q {
                assert(i + 1 <= q - 1);
                assert(v[q - 1 - (i + 1)] == '\n');
                assert(!is_component(v));
            } else if is_component(v) {
                lemma_scan_meets_assignment(s, j, q, x);
            }
        } else {
            lemma_token_stop_char(s, i);
            if i < q {
                assert(token_stop(s, i) <= q - 1);
                if is_component(v) {
                    lemma_scan_meets_assignment(s, j, q, x);
                }
            } else {
                if j > x {
                    assert(v[x - i] == '=');
                    assert(!is_component(v));
                } else {
                    assert(j != x);
                    if is_component(v) {
                        lemma_scan_meets_assignment(s, j, q, x);
                    }
                }
            }
        }
    }
}


proof fn lemma_scan_shape(s: Seq<char>, i: int)
    requires
        0 <= i <= s.len(),
    ensures
        forall|k: int|
            0 <= k < scan_array(s, i).0.len() ==> i <= (#[trigger] scan_array(s, i).0[k]).0
                < scan_array(s, i).0[k].1 <= s.len(),
        forall|a: int, b: int|
            0 <= a < b < scan_array(s, i).0.len() ==> (#[trigger] scan_array(s, i).0[a]).1 <= (
            #[trigger] scan_array(s, i).0[b]).0,
        scan_array(s, i).1 matches Some(c) ==> i <= c < s.len() && forall|k: int|
            0 <= k < scan_array(s, i).0.len() ==> (#[trigger] scan_array(s, i).0[k]).1 <= c,
    decreases s.len() - i,
{
    if i < s.len() {
        if is_ascii_space(s[i]) {
            lemma_scan_shape(s, i + 1);
        } else if s[i] == '#' {
            lemma_find_char_bounds(s, i, '\n');
            lemma_scan_shape(s, line_end(s, i));
        } else if s[i] == ')' {
        } else {
            lemma_token_at_progress(s, i);
            let (v, j) = token_at(s, i);
            if is_component(v) {
                lemma_scan_shape(s, j);
                let r = scan_array(s, j);
                let t = scan_array(s, i).0;
                assert(t == seq![(i, j, v)] + r.0);
                assert forall|k: int| 0 <= k < t.len() implies i <= (#[trigger] t[k]).0 < t[k].1 <= s.len() by {
                    if k > 0 {
                        assert(t[k] == r.0[k - 1]);
                    }
                }
                assert forall|a: int, b: int| 0 <= a < b < t.len() implies (#[trigger] t[a]).1 <= (#[trigger] t[b]).0 by {
                    assert(t[b] == r.0[b - 1]);
                    if a > 0 {
                        assert(t[a] == r.0[a - 1]);
                    }
                }
                if r.1 is Some {
                    assert forall|k: int| 0 <= k < t.len() implies (#[trigger] t[k]).1 <= r.1->0 by {
                        if k > 0 {
                            assert(t[k] == r.0[k - 1]);
                        }
                    }
                }
            }
        }
    }
}

proof fn lemma_value_stop_bounds(s: Seq<char>, i: int)
    requires
        0 <= i <= s.len(),
    ensures
        i <= value_stop(s, i) <= s.len(),
        forall|k: int| i <= k < value_stop(s, i) ==> !is_white_space(#[trigger] s[k]),
    decreases s.len() - i,
{
    if i < s.len() && !is_white_space(s[i]) && s[i] != '#' && s[i] != ';' {
        lemma_value_stop_bounds(s, i + 1);
    }
}

proof fn lemma_theme_value_line(s: Seq<char>, t: (int, int, Seq<char>))
    requires
        parse_theme(s) == Some(t),
    ensures
        assignments(s, theme_name()).len() == 1,
        t.0 == assignments(s, theme_name())[0].1,
        0 <= t.0 <= t.1 <= s.len(),
        forall|j: int| t.0 <= j < t.1 ==> #[trigger] s[j] != '\n',
{
    let ms = assignments(s, theme_name());
    lemma_matches_from_shape(s, theme_name(), 0);
    let m = ms[0];
    lemma_assign_at_progress(s, m.0, theme_name());
    let start = m.1;
    if 0 <= start < s.len() && (s[start] == '"' || s[start] == '\'') {
        let k = find_char(s, start + 1, s[start]);
        lemma_find_char_bounds(s, start + 1, s[start]);
        let v = s.subrange(start + 1, k);
        assert forall|j: int| start <= j < k + 1 implies #[trigger] s[j] != '\n' by {
            if start < j < k {
                assert(v[j - start - 1] == s[j]);
            }
        }
    } else {
        lemma_value_stop_bounds(s, start);
    }
}

proof fn lemma_name_facts()
    ensures
        plain_name(theme_name()),
        plain_name(plugins_name()),
        theme_name()[0] == 'Z',
        plugins_name()[0] == 'p',
{
    reveal_strlit("ZSH_THEME");
    reveal_strlit("plugins");
}

impl Document {
    /// A parse without warnings gives spans that an edit can use.
    proof fn lemma_parsed_spans(&self)
        requires
            self.parsed_from(self.source@),
            self.warnings@.len() == 0,
        ensures
            self.spans_ok(),
    {
        let s = self.source@;
        lemma_name_facts();
        assert(parse_warnings(s).len() == 0);
        assert(plugin_warnings(s).len() == 0);
        let mp = assignments(s, plugins_name());
        let o = array_open(s)->0;
        lemma_matches_from_shape(s, plugins_name(), 0);
        lemma_scan_shape(s, o + 1);
        let sc = scan_array(s, o + 1);
        assert(!sc.2);
        let c = sc.1->0;
        let toks = self.tokens();
        assert(toks == sc.0);
        if toks.len() > 0 {
            assert(toks.last() == toks[toks.len() - 1]);
        }
        if self.theme_span() is Some {
            let t = self.theme_span()->0;
            lemma_theme_value_line(s, t);
            let mt = assignments(s, theme_name());
            lemma_matches_from_shape(s, theme_name(), 0);
            let tp = mt[0].0;
            let pp = mp[0].0;
            lemma_assign_shape(s, tp, theme_name());
            lemma_assign_shape(s, pp, plugins_name());
            assert(t.0 == assign_end(s, tp, theme_name()));
            assert(o == assign_end(s, pp, plugins_name()));
            if tp == pp {
                assert(name_start(s, tp) == name_start(s, pp));
                assert(false);
            } else if tp < pp {
                assert(s[pp - 1] == '\n');
                if t.1 > pp {
                    assert(tp <= pp - 1);
                    if pp - 1 < t.0 {
                        assert(plain_range(s, tp, t.0));
                        assert(s[pp - 1] != '\n');
                    }
                }
                assert(t.1 <= pp);
                assert(self.theme_first());
            } else {
                assert(s[tp - 1] == '\n');
                assert(plain_range(s, pp, o));
                if tp - 1 < o {
                    assert(s[tp - 1] != '\n');
                }
                assert(s[o] == '(');
                assert(tp - 1 > o);
                let x = choose|x: int| tp <= x < t.0 && s[x] == '=';
                assert(plain_range(s, tp, x + 1));
                lemma_scan_meets_assignment(s, o + 1, tp, x);
                assert(c < tp);
                assert(self.theme_last());
            }
        }
    }
}


/// Parsing then writing back the same values changes nothing, for a file
/// without warnings whose theme is a literal and whose plugins are distinct.
pub proof fn roundtrip_keeps_source(d: &Document)
    requires
        d.parsed_from(d.source@),
        d.warnings@.len() == 0,
        is_theme_literal(d.values.theme@),
        !has_duplicate(d.values.plugin_names()),
    ensures
        d.edit_result(d.values) == Ok::<Seq<char>, Seq<char>>(d.source@),
{
    let s = d.source@;
    let names = d.values.plugin_names();
    let toks = d.tokens();
    lemma_name_facts();
    assert(parse_warnings(s).len() == 0);
    assert(plugin_warnings(s).len() == 0);
    let o = array_open(s)->0;
    lemma_scan_array_components(s, o + 1);
    assert(names == toks.map_values(|t: (int, int, Seq<char>)| t.2));
    assert forall|k: int| 0 <= k < names.len() implies is_component(#[trigger] names[k]) by {
        assert(names[k] == toks[k].2);
    }
    lemma_deletions_keep_all(toks, names);
    lemma_extras_none(names, names);
    assert(d.edits_for(d.values) =~= Seq::<(int, int, Seq<char>)>::empty());
    assert(splice(s, Seq::<(int, int, Seq<char>)>::empty(), 0) =~= s);
}

proof fn lemma_scan_array_components(s: Seq<char>, i: int)
    ensures
        forall|k: int|
            0 <= k < scan_array(s, i).0.len() ==> is_component((#[trigger] scan_array(s, i).0[k]).2),
    decreases s.len() - i,
{
    if 0 <= i < s.len() {
        if is_ascii_space(s[i]) {
            lemma_scan_array_components(s, i + 1);
            assert(scan_array(s, i) == scan_array(s, i + 1));
        } else if s[i] == '#' {
            lemma_find_char_bounds(s, i, '\n');
            lemma_scan_array_components(s, line_end(s, i));
            assert(scan_array(s, i) == scan_array(s, line_end(s, i)));
        } else if s[i] != ')' {
            lemma_token_at_progress(s, i);
            let (v, j) = token_at(s, i);
            if is_component(v) {
                lemma_scan_array_components(s, j);
                let t = scan_array(s, i).0;
                let r = scan_array(s, j).0;
                assert(t == seq![(i, j, v)] + r);
                assert forall|k: int| 0 <= k < t.len() implies is_component((#[trigger] t[k]).2) by {
                    if k > 0 {
                        assert(t[k] == r[k - 1]);
                    } else {
                        assert(t[0] == (i, j, v));
                    }
                }
            }
        }
    }
}

proof fn lemma_deletions_keep_all(toks: Seq<(int, int, Seq<char>)>, keep: Seq<Seq<char>>)
    requires
        keep == toks.map_values(|t: (int, int, Seq<char>)| t.2),
    ensures
        deletions(toks, keep).len() == 0,
{
    lemma_deletions_subset(toks, keep, toks.len() as int);
    assert(toks.take(toks.len() as int) =~= toks);
}

proof fn lemma_deletions_subset(toks: Seq<(int, int, Seq<char>)>, keep: Seq<Seq<char>>, n: int)
    requires
        0 <= n <= toks.len(),
        keep == toks.map_values(|t: (int, int, Seq<char>)| t.2),
    ensures
        deletions(toks.take(n), keep).len() == 0,
    decreases n,
{
    if n > 0 {
        let t = toks.take(n);
        assert(t.drop_last() =~= toks.take(n - 1));
        lemma_deletions_subset(toks, keep, n - 1);
        assert(keep[n - 1] == t.last().2);
        assert(keep.contains(t.last().2));
    }
}

proof fn lemma_extras_none(ws: Seq<Seq<char>>, current: Seq<Seq<char>>)
    requires
        forall|k: int| 0 <= k < ws.len() ==> current.contains(#[trigger] ws[k]),
    ensures
        extras(ws, current).len() == 0,
    decreases ws.len(),
{
    if ws.len() > 0 {
        let w = ws.drop_last();
        assert forall|k: int| 0 <= k < w.len() implies current.contains(#[trigger] w[k]) by {
            assert(w[k] == ws[k]);
        }
        lemma_extras_none(w, current);
        assert(current.contains(ws[ws.len() - 1]));
    }
}


/// `str::split_inclusive('\n')`: the lines of `s`, each with its newline.
pub open spec fn lines_of(s: Seq<char>) -> Seq<Seq<char>>
    decreases s.len(),
{
    if s.len() == 0 {
        Seq::empty()
    } else {
        let k = find_char(s, 0, '\n');
        proof {
            lemma_find_char_bounds(s, 0, '\n');
        }
        if k < s.len() {
            seq![s.subrange(0, k + 1)] + lines_of(s.subrange(k + 1, s.len() as int))
        } else {
            seq![s]
        }
    }
}

/// Each line with `sign` before it; a line without a newline is followed by
/// the unified-diff marker for that.
pub open spec fn marked(lines: Seq<Seq<char>>, sign: char) -> Seq<char>
    decreases lines.len(),
{
    if lines.len() == 0 {
        Seq::empty()
    } else {
        let l = lines[0];
        seq![sign] + l + (if l.len() > 0 && l.last() == '\n' {
            Seq::empty()
        } else {
            "\n\\ No newline at end of file\n"@
        }) + marked(lines.drop_first(), sign)
    }
}

/// The diff that `diff` shows: one hunk that removes every old line and
/// adds every new one, or `No changes`.
pub open spec fn diff_text(before: Seq<char>, after: Seq<char>) -> Seq<char> {
    if before == after {
        "No changes"@
    } else {
        let a = lines_of(before);
        let b = lines_of(after);
        "--- .zshrc (current)\n+++ .zshrc (proposed)\n@@ -1,"@ + decimal(a.len()) + " +1,"@
            + decimal(b.len()) + " @@\n"@ + marked(a, '-') + marked(b, '+')
    }
}

pub fn lines_exec(s: &Vec<char>) -> (r: Vec<Vec<char>>)
    ensures
        r@.map_values(|l: Vec<char>| l@) == lines_of(s@),
        r@.len() <= s.len(),
{
    let mut out: Vec<Vec<char>> = Vec::new();
    let mut i: usize = 0;
    assert(s@.subrange(0, s.len() as int) =~= s@);
    assert(out@.map_values(|l: Vec<char>| l@) =~= Seq::<Seq<char>>::empty());
    while i < s.len()
        invariant
            i <= s.len(),
            lines_of(s@) == out@.map_values(|l: Vec<char>| l@) + lines_of(s@.subrange(
                i as int,
                s.len() as int,
            )),
            out@.len() <= i,
        decreases s.len() - i,
    {
        let ghost rest = s@.subrange(i as int, s.len() as int);
        let k = find_char_at(s, i, '\n');
        proof {
            lemma_find_char_shift(s@, i as int, '\n');
        }
        let ghost before = out@.map_values(|l: Vec<char>| l@);
        if k < s.len() {
            let line = slice_chars(s, i, k + 1);
            out.push(line);
            assert(rest.subrange(0, k + 1 - i) =~= s@.subrange(i as int, k + 1));
            assert(rest.subrange(k + 1 - i, rest.len() as int) =~= s@.subrange(k + 1, s.len() as int));
            assert(out@.map_values(|l: Vec<char>| l@) =~= before.push(s@.subrange(i as int, k + 1)));
            i = k + 1;
        } else {
            let line = slice_chars(s, i, s.len());
            out.push(line);
            assert(out@.map_values(|l: Vec<char>| l@) =~= before.push(rest));
            i = s.len();
            assert(lines_of(s@.subrange(i as int, s.len() as int)) =~= Seq::<Seq<char>>::empty());
        }
    }
    assert(lines_of(s@.subrange(i as int, s.len() as int)) =~= Seq::<Seq<char>>::empty());
    out
}

proof fn lemma_find_char_shift(s: Seq<char>, i: int, c: char)
    requires
        0 <= i <= s.len(),
    ensures
        find_char(s.subrange(i, s.len() as int), 0, c) == find_char(s, i, c) - i,
    decreases s.len() - i,
{
    let r = s.subrange(i, s.len() as int);
    lemma_find_char_from(s, i, c, i);
}

proof fn lemma_find_char_from(s: Seq<char>, i: int, c: char, j: int)
    requires
        0 <= i <= j <= s.len(),
    ensures
        find_char(s.subrange(i, s.len() as int), j - i, c) == find_char(s, j, c) - i,
    decreases s.len() - j,
{
    let r = s.subrange(i, s.len() as int);
    if j < s.len() {
        assert(r[j - i] == s[j]);
        if s[j] != c {
            lemma_find_char_from(s, i, c, j + 1);
        }
    }
}

fn marked_exec(out: &mut Vec<char>, lines: &Vec<Vec<char>>, sign: char)
    ensures
        final(out)@ == old(out)@ + marked(lines@.map_values(|l: Vec<char>| l@), sign),
{
    let ghost m = lines@.map_values(|l: Vec<char>| l@);
    let tail = chars_of("\n\\ No newline at end of file\n");
    let mut acc: Vec<char> = Vec::new();
    let mut k: usize = 0;
    assert(m.skip(0) =~= m);
    while k < lines.len()
        invariant
            k <= lines.len(),
            m == lines@.map_values(|l: Vec<char>| l@),
            tail@ == "\n\\ No newline at end of file\n"@,
            marked(m, sign) == acc@ + marked(m.skip(k as int), sign),
        decreases lines.len() - k,
    {
        let l = &lines[k];
        assert(m.skip(k as int)[0] == l@);
        assert(m.skip(k as int).drop_first() =~= m.skip(k + 1));
        acc.push(sign);
        extend_chars(&mut acc, l);
        if !(l.len() > 0 && l[l.len() - 1] == '\n') {
            extend_chars(&mut acc, &tail);
        }
        k += 1;
    }
    assert(m.skip(k as int) =~= Seq::<Seq<char>>::empty());
    assert(acc@ =~= marked(m, sign));
    extend_chars(out, &acc);
}

/// A unified diff of the whole file: `No changes` when equal, else one hunk
/// that removes every old line and adds every new one (see `diff_text`).
pub fn diff(before: &str, after: &str) -> (r: String)
    ensures
        r@ == diff_text(before@, after@),
{
    let a = chars_of(before);
    let b = chars_of(after);
    if chars_eq(&a, &b) {
        return owned("No changes");
    }
    let la = lines_exec(&a);
    let lb = lines_exec(&b);
    let mut out = chars_of("--- .zshrc (current)\n+++ .zshrc (proposed)\n@@ -1,");
    let na = decimal_exec(la.len());
    extend_chars(&mut out, &na);
    extend_str(&mut out, " +1,");
    let nb = decimal_exec(lb.len());
    extend_chars(&mut out, &nb);
    extend_str(&mut out, " @@\n");
    marked_exec(&mut out, &la, '-');
    marked_exec(&mut out, &lb, '+');
    string_of(&out)
}

} // verus!

verus! {

/// A document parsed from `s` (every field is what parsing `s` gives).
pub open spec fn parse_of(s: Seq<char>) -> Document {
    choose|d: Document| d.parsed_from(s)
}

/// What editing the text `s` to `v` gives (see `Document::edit_result`).
pub open spec fn edit_text(s: Seq<char>, v: Values) -> Result<Seq<char>, Seq<char>> {
    parse_of(s).edit_result(v)
}

/// The plugin names that parsing `s` finds.
pub open spec fn parsed_plugins(s: Seq<char>) -> Seq<Seq<char>> {
    array_scan(s).0.map_values(|t: (int, int, Seq<char>)| t.2)
}

/// Two documents parsed from the same text edit alike.
proof fn lemma_edit_determined(a: Document, b: Document, s: Seq<char>, v: Values)
    requires
        a.parsed_from(s),
        b.parsed_from(s),
    ensures
        a.edit_result(v) == b.edit_result(v),
{
    assert(a.warnings@.len() == strings_model(a.warnings@).len());
    assert(b.warnings@.len() == strings_model(b.warnings@).len());
    assert(a.edits_for(v) == b.edits_for(v));
}

/// A parsed document edits as its text does.
pub proof fn lemma_edit_text(d: Document, v: Values)
    requires
        d.parsed_from(d.source@),
    ensures
        d.edit_result(v) == edit_text(d.source@, v),
        parse_of(d.source@).parsed_from(d.source@),
        d.values.plugin_names() == parsed_plugins(d.source@),
{
    let s = d.source@;
    assert(exists|x: Document| x.parsed_from(s));
    lemma_edit_determined(d, parse_of(s), s, v);
}

} // verus!

verus! {

/// What editing the text `s` to the theme `theme` and the plugin names
/// `names` gives.
pub open spec fn edit_names(s: Seq<char>, theme: Seq<char>, names: Seq<Seq<char>>) -> Result<
    Seq<char>,
    Seq<char>,
> {
    edit_text(s, choose|v: Values| v.theme@ == theme && v.plugin_names() == names)
}

/// Editing depends on the values' texts only.
pub proof fn lemma_edit_names(s: Seq<char>, v: Values)
    ensures
        edit_text(s, v) == edit_names(s, v.theme@, v.plugin_names()),
{
    let w = choose|x: Values| x.theme@ == v.theme@ && x.plugin_names() == v.plugin_names();
    assert(exists|x: Values| x.theme@ == v.theme@ && x.plugin_names() == v.plugin_names());
    let d = parse_of(s);
    assert(d.edits_for(v) == d.edits_for(w));
}

} // verus!

verus! {

/// The theme that parsing `s` finds (empty when there is none).
pub open spec fn parsed_theme(s: Seq<char>) -> Seq<char> {
    match parse_theme(s) {
        Some(t) => t.2,
        None => Seq::empty(),
    }
}

} // verus!

verus! {

proof fn lemma_deletions_elements(toks: Seq<(int, int, Seq<char>)>, keep: Seq<Seq<char>>)
    ensures
        forall|k: int|
            0 <= k < deletions(toks, keep).len() ==> exists|j: int|
                0 <= j < toks.len() && #[trigger] deletions(toks, keep)[k] == (
                    toks[j].0,
                    toks[j].1,
                    Seq::<char>::empty(),
                ) && !keep.contains(toks[j].2),
    decreases toks.len(),
{
    if toks.len() > 0 {
        let rest = toks.drop_last();
        lemma_deletions_elements(rest, keep);
        let d = deletions(toks, keep);
        assert forall|k: int| 0 <= k < d.len() implies exists|j: int|
            0 <= j < toks.len() && #[trigger] d[k] == (toks[j].0, toks[j].1, Seq::<char>::empty())
                && !keep.contains(toks[j].2) by {
            if k < deletions(rest, keep).len() {
                let j = choose|j: int|
                    0 <= j < rest.len() && deletions(rest, keep)[k] == (
                        rest[j].0,
                        rest[j].1,
                        Seq::<char>::empty(),
                    ) && !keep.contains(rest[j].2);
                assert(rest[j] == toks[j]);
            } else {
                assert(d[k] == (toks.last().0, toks.last().1, Seq::<char>::empty()));
                assert(toks.last() == toks[toks.len() - 1]);
            }
        }
    }
}

/// Editing rewrites only the recognized values: the result is the source
/// with each edit put in place, and each edit either replaces the theme
/// value by the new quoted theme, deletes an array word whose name the new
/// values drop, or inserts the added names before the array's `)`.
pub proof fn edit_touches_only_values(d: &Document, v: Values)
    requires
        d.parsed_from(d.source@),
        d.edit_result(v) is Ok,
    ensures
        d.edit_result(v) == Ok::<Seq<char>, Seq<char>>(splice(d.source@, d.edits_for(v), 0)),
        forall|k: int|
            0 <= k < d.edits_for(v).len() ==> {
                let e = #[trigger] d.edits_for(v)[k];
                ||| (d.theme_span() matches Some(t) && e == (
                    t.0,
                    t.1,
                    seq!['"'] + v.theme@ + seq!['"'],
                ))
                ||| (exists|j: int|
                    0 <= j < d.tokens().len() && e == (
                        d.tokens()[j].0,
                        d.tokens()[j].1,
                        Seq::<char>::empty(),
                    ) && !v.plugin_names().contains(d.tokens()[j].2))
                ||| (d.close_index() matches Some(c) && e == (
                    c,
                    c,
                    spaced(extras(v.plugin_names(), d.values.plugin_names())),
                ))
            },
{
    let t = d.theme_span()->0;
    let theme = if v.theme@ != d.values.theme@ && d.theme_span() is Some {
        seq![(t.0, t.1, seq!['"'] + v.theme@ + seq!['"'])]
    } else {
        Seq::empty()
    };
    let extra = extras(v.plugin_names(), d.values.plugin_names());
    let c = d.close_index()->0;
    let dels = deletions(d.tokens(), v.plugin_names());
    let ins = if extra.len() > 0 && d.close_index() is Some {
        seq![(c, c, spaced(extra))]
    } else {
        Seq::empty()
    };
    let array = dels + ins;
    lemma_deletions_elements(d.tokens(), v.plugin_names());
    let es = d.edits_for(v);
    assert(es == if d.theme_first() { theme + array } else { array + theme });
    assert forall|k: int| 0 <= k < es.len() implies {
        let e = #[trigger] es[k];
        ||| (d.theme_span() matches Some(t) && e == (t.0, t.1, seq!['"'] + v.theme@ + seq!['"']))
        ||| (exists|j: int|
            0 <= j < d.tokens().len() && e == (d.tokens()[j].0, d.tokens()[j].1, Seq::<char>::empty())
                && !v.plugin_names().contains(d.tokens()[j].2))
        ||| (d.close_index() matches Some(c) && e == (c, c, spaced(extra)))
    } by {
        let e = es[k];
        if d.theme_first() {
            if k < theme.len() {
                assert(e == theme[k]);
            } else if k - theme.len() < dels.len() {
                assert(e == dels[k - theme.len()]);
            } else {
                assert(e == ins[k - theme.len() - dels.len()]);
            }
        } else {
            if k < dels.len() {
                assert(e == dels[k]);
            } else if k < array.len() {
                assert(e == ins[k - dels.len()]);
            } else {
                assert(e == theme[k - array.len()]);
            }
        }
    }
}

} // verus!

verus! {

/// The assignments of `name` from `i` on in `name='w'` (or `"w"`): none
/// after the one at the start.
proof fn lemma_no_match_after_value(s: Seq<char>, name: Seq<char>, n: int, i: int)
    requires
        0 <= n,
        n + 1 <= i <= s.len() + 1,
        s.len() >= n + 2,
        s[s.len() - 1] == '\n',
        forall|k: int| n <= k < s.len() - 1 ==> #[trigger] s[k] != '\n',
    ensures
        matches_from(s, name, i) == Seq::<(int, int, bool)>::empty(),
    decreases s.len() + 1 - i,
{
    lemma_no_assign_at_end(s, name);
    if i <= s.len() {
        lemma_no_match_after_value(s, name, n, i + 1);
        if i < s.len() {
            assert(s[i - 1] != '\n');
        }
    }
}

/// A quoted literal reads as the text between its quotes: when the only
/// assignment of `name` is `name='w'` or `name="w"` on a line of its own,
/// its value is `w`, for every `w` without quotes, newlines, carriage
/// returns, backslashes or backquotes and every `name` without blanks.
pub proof fn quoted_values_read_without_quotes(name: Seq<char>, w: Seq<char>, q: char)
    requires
        q == '"' || q == '\'',
        forall|k: int| 0 <= k < name.len() ==> !is_blank(#[trigger] name[k]),
        forall|k: int|
            0 <= k < w.len() ==> {
                let c = #[trigger] w[k];
                c != '"' && c != '\'' && c != '\n' && c != '\r' && c != '\\' && c != '`'
            },
    ensures
        scalar_spec(name + seq!['='] + seq![q] + w + seq![q] + seq!['\n'], name) == Ok::<
            Option<(int, int, Seq<char>)>,
            Seq<char>,
        >(Some((name.len() + 1int, name.len() + w.len() + 3int, w))),
{
    let s = name + seq!['='] + seq![q] + w + seq![q] + seq!['\n'];
    let n = name.len() as int;
    assert(s.len() == n + w.len() + 4);
    assert(s[n] == '=');
    assert(s[n + 1] == q);
    assert(s[n + 2 + w.len()] == q);
    assert(s[s.len() - 1] == '\n');
    assert forall|k: int| 0 <= k < w.len() implies s[n + 2 + k] == #[trigger] w[k] by {}
    assert forall|k: int| 0 <= k < n implies s[k] == #[trigger] name[k] by {}
    // the assignment at the start
    assert(!(starts_with_at(s, 0, export_word()) && 6 < s.len() && is_blank(s[6]))) by {
        if starts_with_at(s, 0, export_word()) && 6 < s.len() && is_blank(s[6]) {
            if n > 6 {
                assert(s[6] == name[6]);
            } else if n < 6 {
                assert(s.subrange(0, 6)[n] == s[n]);
                assert(export_word()[n] != '=');
            }
        }
    }
    assert(s.subrange(0, n) =~= name);
    assert(starts_with_at(s, 0, name));
    assert(skip_blanks(s, n) == n);
    assert(skip_blanks(s, n + 1) == n + 1);
    assert(after_name(s, 0, name) == Some((n + 1, false)));
    assert(assign_at(s, 0, name) == Some((n + 1, false)));
    assert forall|k: int| n <= k < s.len() - 1 implies #[trigger] s[k] != '\n' by {
        if n + 2 <= k < n + 2 + w.len() {
            assert(s[k] == w[k - n - 2]);
        }
    }
    lemma_no_match_after_value(s, name, n, n + 1);
    assert(assignments(s, name) =~= seq![(0int, n + 1, false)]);
    // the value between the quotes
    let k = n + 2 + w.len();
    lemma_find_char_bounds(s, n + 2, q);
    assert(find_char(s, n + 2, q) == k) by {
        let f = find_char(s, n + 2, q);
        if f < k {
            assert(s[f] == w[f - n - 2]);
        }
    }
    assert(s.subrange(n + 2, k) =~= w);
    assert(!has_dynamic_char(w));
    assert(line_end(s, k + 1) == k + 1);
    assert(s.subrange(k + 1, k + 1) =~= Seq::<char>::empty());
    assert(trim(Seq::<char>::empty()) =~= Seq::<char>::empty());
    assert(!trailing_expression(s, k + 1));
}

/// Added names go in as separate words: `spaced(ws)` followed by the
/// closing `)` reads, from `i` on, as exactly the array words `ws`, closed
/// at the `)`, for every list of plain names.
proof fn lemma_spaced_scans(s: Seq<char>, i: int, ws: Seq<Seq<char>>)
    requires
        0 <= i,
        i + spaced(ws).len() < s.len(),
        s.subrange(i, i + spaced(ws).len() + 1) == spaced(ws) + seq![')'],
        forall|k: int| 0 <= k < ws.len() ==> is_component(#[trigger] ws[k]),
    ensures
        scan_array(s, i).1 == Some(i + spaced(ws).len()),
        !scan_array(s, i).2,
        scan_array(s, i).0.map_values(|t: (int, int, Seq<char>)| t.2) == ws,
    decreases ws.len(),
{
    let sp = spaced(ws);
    assert(s[i + sp.len()] == s.subrange(i, i + sp.len() + 1)[sp.len() as int]);
    if ws.len() == 0 {
        assert(s[i] == ')');
        assert(scan_array(s, i).0.map_values(|t: (int, int, Seq<char>)| t.2) =~= ws);
    } else {
        lemma_spaced_front(ws);
        let w = ws[0];
        let rest = ws.drop_first();
        let sr = spaced(rest);
        assert(sp =~= seq![' '] + w + sr);
        assert(is_component(w));
        assert forall|k: int| 0 <= k < rest.len() implies is_component(#[trigger] rest[k]) by {
            assert(rest[k] == ws[k + 1]);
        }
        let j = i + 1 + w.len();
        assert forall|k: int| 0 <= k < sp.len() + 1 implies s[i + k] == #[trigger] (sp + seq![')'])[k] by {
            assert(s.subrange(i, i + sp.len() + 1)[k] == s[i + k]);
        }
        assert((sp + seq![')'])[0] == ' ');
        assert(s[i + 0] == (sp + seq![')'])[0]);
        assert(s[i] == ' ');
        assert((sp + seq![')'])[1 + w.len() as int] == (sr + seq![')'])[0]);
        if rest.len() > 0 {
            lemma_spaced_front(rest);
        }
        assert((sr + seq![')'])[0] == ' ' || (sr + seq![')'])[0] == ')');
        assert(s[i + (1 + w.len())] == (sp + seq![')'])[1 + w.len() as int]);
        assert forall|k: int| 0 <= k < w.len() implies s[i + 1 + k] == #[trigger] w[k] by {
            assert((sp + seq![')'])[1 + k] == w[k]);
        }
        // the word after the space
        assert(s[i + 1] == w[0]);
        assert(is_component_char(w[0]));
        lemma_token_stop_over(s, i + 1, j, w);
        assert(s.subrange(i + 1, j) =~= w);
        assert(s.subrange(j, j + sr.len() + 1) =~= sr + seq![')']) by {
            assert forall|k: int| 0 <= k < sr.len() + 1 implies s.subrange(j, j + sr.len() + 1)[k]
                == #[trigger] (sr + seq![')'])[k] by {
                assert((sp + seq![')'])[1 + w.len() + k] == (sr + seq![')'])[k]);
                assert(s[i + 1 + w.len() + k] == (sp + seq![')'])[1 + w.len() + k]);
            }
        }
        lemma_spaced_scans(s, j, rest);
        assert(scan_array(s, i) == scan_array(s, i + 1));
        let r = scan_array(s, j);
        assert(scan_array(s, i + 1) == (seq![(i + 1, j, w)] + r.0, r.1, r.2));
        assert((seq![(i + 1, j, w)] + r.0).map_values(|t: (int, int, Seq<char>)| t.2) =~= seq![w]
            + r.0.map_values(|t: (int, int, Seq<char>)| t.2));
        assert(seq![w] + rest =~= ws);
    }
}

proof fn lemma_spaced_front(ws: Seq<Seq<char>>)
    requires
        ws.len() > 0,
    ensures
        spaced(ws) == seq![' '] + ws[0] + spaced(ws.drop_first()),
    decreases ws.len(),
{
    if ws.len() == 1 {
        assert(ws.drop_last() =~= Seq::<Seq<char>>::empty());
        assert(ws.drop_first() =~= Seq::<Seq<char>>::empty());
        assert(spaced(ws) =~= seq![' '] + ws[0]);
    } else {
        lemma_spaced_front(ws.drop_last());
        assert(ws.drop_last()[0] == ws[0]);
        assert(ws.drop_last().drop_first() =~= ws.drop_first().drop_last());
        assert(ws.drop_first().last() == ws.last());
        assert(spaced(ws) =~= seq![' '] + ws[0] + spaced(ws.drop_first()));
    }
}

/// A plain name followed by a space or `)` ends where the name ends.
proof fn lemma_token_stop_over(s: Seq<char>, a: int, b: int, w: Seq<char>)
    requires
        0 <= a <= b < s.len(),
        b - a == w.len(),
        forall|k: int| 0 <= k < w.len() ==> is_component_char(#[trigger] w[k]),
        forall|k: int| 0 <= k < w.len() ==> s[a + k] == #[trigger] w[k],
        s[b] == ' ' || s[b] == ')',
    ensures
        token_stop(s, a) == b,
    decreases b - a,
{
    if a < b {
        assert(s[a] == w[0]);
        assert(is_component_char(w[0]));
        let w2 = w.drop_first();
        assert forall|k: int| 0 <= k < w2.len() implies s[a + 1 + k] == #[trigger] w2[k] by {
            assert(s[a + 1 + k] == w[1 + k]);
        }
        assert forall|k: int| 0 <= k < w2.len() implies is_component_char(#[trigger] w2[k]) by {
            assert(w2[k] == w[k + 1]);
        }
        lemma_token_stop_over(s, a + 1, b, w2);
    }
}

/// Names added to the plugins array go in as words of their own: the text
/// that `edit` puts before the `)` (`spaced`), followed by the `)`, reads
/// back as exactly those names and closes at that `)`, for every list of
/// plain names.
pub proof fn added_names_read_back(ws: Seq<Seq<char>>)
    requires
        forall|k: int| 0 <= k < ws.len() ==> is_component(#[trigger] ws[k]),
    ensures
        ({
            let s = spaced(ws) + seq![')'];
            &&& scan_array(s, 0).1 == Some(spaced(ws).len() as int)
            &&& !scan_array(s, 0).2
            &&& scan_array(s, 0).0.map_values(|t: (int, int, Seq<char>)| t.2) == ws
        }),
{
    let s = spaced(ws) + seq![')'];
    assert(s.subrange(0, spaced(ws).len() + 1int) =~= s);
    lemma_spaced_scans(s, 0, ws);
}

} // verus!

//! The one-line summary of a plugin that the catalog shows, taken from the
//! plugin's README.
use crate::config::{join, join_strings, lines_exec, lines_of, strings_model};
use crate::text::{
    back_white, find_char, lemma_find_char_bounds, skip_white, chars_of, is_white_space, slice_chars, starts_with_at, starts_with_at_exec,
    string_of, trim, trim_chars, white_space,
};
use vstd::prelude::*;

verus! {

/// What `Regex::new(pattern)` followed by `replace_all(text, rep)` gives.
pub uninterp spec fn regex_replaced(pattern: Seq<char>, text: Seq<char>, rep: Seq<char>) -> Seq<char>;

/// `{#...}`: a heading attribute.
pub open spec fn attr_pattern() -> Seq<char> {
    "\\{#[^}]*\\}"@
}

/// `[text](target)`: a link, whose text is kept.
pub open spec fn link_pattern() -> Seq<char> {
    "\\[([^\\]]+)\\]\\([^)]*\\)"@
}

/// A bare `http://` or `https://` address.
pub open spec fn url_pattern() -> Seq<char> {
    "https?://\\S+"@
}

/// `regex::Regex::new(pattern)` and `Regex::replace_all(text, rep)`: every
/// match of the pattern in `text` replaced by `rep`, with `$1` standing for
/// the first group. The pattern is one of the three valid ones above, so it
/// compiles. The result is named, not described.
#[verifier::external_body]
fn regex_replace(pattern: &str, text: &str, rep: &str) -> (r: String)
    requires
        pattern@ == attr_pattern() || pattern@ == link_pattern() || pattern@ == url_pattern(),
    ensures
        r@ == regex_replaced(pattern@, text@, rep@),
{
    regex::Regex::new(pattern).expect("valid pattern").replace_all(text, rep).into_owned()
}

/// `s` without the character `c`.
pub open spec fn without_char(s: Seq<char>, c: char) -> Seq<char>
    decreases s.len(),
{
    if s.len() == 0 {
        s
    } else if s.last() == c {
        without_char(s.drop_last(), c)
    } else {
        without_char(s.drop_last(), c).push(s.last())
    }
}

/// The words of `s`: its maximal runs of characters that are not white
/// space (`str::split_whitespace`).
pub open spec fn words(s: Seq<char>) -> Seq<Seq<char>>
    decreases s.len(),
{
    if s.len() == 0 {
        Seq::empty()
    } else {
        let w = words(s.drop_last());
        let c = s.last();
        if is_white_space(c) {
            w
        } else if s.len() >= 2 && !is_white_space(s[s.len() - 2]) {
            w.update(w.len() - 1, w.last().push(c))
        } else {
            w.push(seq![c])
        }
    }
}

/// What is left of a README line after the links are taken apart: no
/// backquotes, and the words joined by single spaces.
pub open spec fn collapsed(s: Seq<char>) -> Seq<char> {
    join(words(without_char(s, '`')), " "@)
}

/// Removes backquotes and collapses white space (see `collapsed`).
pub fn collapse_markdown(s: &str) -> (r: String)
    ensures
        r@ == collapsed(s@),
{
    let v = chars_of(s);
    let mut t: Vec<char> = Vec::new();
    let mut i: usize = 0;
    while i < v.len()
        invariant
            i <= v@.len(),
            v@ == s@,
            t@ == without_char(v@.take(i as int), '`'),
        decreases v.len() - i,
    {
        assert(v@.take(i + 1).drop_last() =~= v@.take(i as int));
        if v[i] != '`' {
            t.push(v[i]);
        }
        i += 1;
    }
    assert(v@.take(v@.len() as int) =~= v@);
    let mut done: Vec<String> = Vec::new();
    let mut cur: Vec<char> = Vec::new();
    let mut k: usize = 0;
    while k < t.len()
        invariant
            k <= t@.len(),
            words(t@.take(k as int)) == strings_model(done@) + if cur@.len() > 0 {
                seq![cur@]
            } else {
                Seq::<Seq<char>>::empty()
            },
            cur@.len() > 0 <==> (k > 0 && !is_white_space(t@[k - 1])),
        decreases t.len() - k,
    {
        let ghost p = t@.take(k + 1);
        assert(p.drop_last() =~= t@.take(k as int));
        assert(p.last() == t@[k as int]);
        let c = t[k];
        let ghost w = words(t@.take(k as int));
        let ghost d0 = strings_model(done@);
        if white_space(c) {
            assert(words(p) == w);
            if cur.len() > 0 {
                done.push(string_of(&cur));
                assert(strings_model(done@) =~= d0.push(cur@));
                assert(w =~= d0 + seq![cur@]);
                cur = Vec::new();
                assert(strings_model(done@) + Seq::<Seq<char>>::empty() =~= strings_model(done@));
            }
        } else {
            if cur.len() > 0 {
                assert(p[p.len() - 2] == t@[k - 1]);
                let ghost c0 = cur@;
                cur.push(c);
                assert(w =~= d0 + seq![c0]);
                assert(words(p) == w.update(w.len() - 1, w.last().push(c)));
                assert(words(p) =~= d0 + seq![cur@]);
            } else {
                cur.push(c);
                assert(cur@ =~= seq![c]);
                assert(w =~= d0);
                assert(words(p) == w.push(seq![c]));
                assert(words(p) =~= d0 + seq![cur@]);
            }
        }
        k += 1;
    }
    assert(t@.take(t@.len() as int) =~= t@);
    assert(t@ == without_char(s@, '`'));
    if cur.len() > 0 {
        let ghost before = strings_model(done@);
        done.push(string_of(&cur));
        assert(strings_model(done@) =~= before.push(cur@));
    } else {
        assert(strings_model(done@) + Seq::<Seq<char>>::empty() =~= strings_model(done@));
    }
    assert(words(t@) == strings_model(done@));
    join_strings(&done, " ")
}

/// What `clean_markdown` gives: heading attributes removed, links replaced
/// by their text, bare addresses removed, then collapsed.
pub open spec fn cleaned(s: Seq<char>) -> Seq<char> {
    collapsed(
        regex_replaced(
            url_pattern(),
            regex_replaced(link_pattern(), regex_replaced(attr_pattern(), s, ""@), "$1"@),
            ""@,
        ),
    )
}

/// The text of a Markdown line without its markup (see `cleaned`).
pub fn clean_markdown(s: &str) -> (r: String)
    ensures
        r@ == cleaned(s@),
{
    let a = regex_replace("\\{#[^}]*\\}", s, "");
    let b = regex_replace("\\[([^\\]]+)\\]\\([^)]*\\)", a.as_str(), "$1");
    let c = regex_replace("https?://\\S+", b.as_str(), "");
    collapse_markdown(c.as_str())
}


/// A line that can stand as a summary: not empty, and not a heading, an
/// HTML tag, a note, an image or a rule.
pub open spec fn plain_line(t: Seq<char>) -> bool {
    &&& t.len() > 0
    &&& !starts_with_at(t, 0, "#"@)
    &&& !starts_with_at(t, 0, "<"@)
    &&& !starts_with_at(t, 0, "[!"@)
    &&& !starts_with_at(t, 0, "!["@)
    &&& !starts_with_at(t, 0, "---"@)
}

/// The first of the lines that, trimmed, is plain.
pub open spec fn first_plain(ls: Seq<Seq<char>>) -> Option<Seq<char>>
    decreases ls.len(),
{
    if ls.len() == 0 {
        None
    } else if plain_line(trim(ls[0])) {
        Some(trim(ls[0]))
    } else {
        first_plain(ls.drop_first())
    }
}

/// `s` without its leading `c`s (`trim_start_matches`).
pub open spec fn strip_leading(s: Seq<char>, c: char) -> Seq<char>
    decreases s.len(),
{
    if s.len() > 0 && s[0] == c {
        strip_leading(s.drop_first(), c)
    } else {
        s
    }
}

/// The text of the first of the lines that, trimmed, is a `# ` heading.
pub open spec fn first_heading(ls: Seq<Seq<char>>) -> Option<Seq<char>>
    decreases ls.len(),
{
    if ls.len() == 0 {
        None
    } else if starts_with_at(trim(ls[0]), 0, "# "@) {
        Some(trim(strip_leading(trim(ls[0]), '#')))
    } else {
        first_heading(ls.drop_first())
    }
}

/// The line of a README that summarizes it: the first plain line, else the
/// first heading's text, else nothing.
pub open spec fn readme_line(text: Seq<char>) -> Seq<char> {
    let ls = lines_of(text);
    match first_plain(ls) {
        Some(t) => t,
        None => match first_heading(ls) {
            Some(h) => h,
            None => Seq::empty(),
        },
    }
}

/// The summary of a README: its summary line without markup, at most 140
/// characters.
pub open spec fn summary_of(text: Seq<char>) -> Seq<char> {
    let c = cleaned(readme_line(text));
    if c.len() <= 140 {
        c
    } else {
        c.take(140)
    }
}

fn strip_leading_exec(s: &Vec<char>, c: char) -> (r: Vec<char>)
    ensures
        r@ == strip_leading(s@, c),
{
    let mut i: usize = 0;
    assert(s@.skip(0) =~= s@);
    while i < s.len() && s[i] == c
        invariant
            i <= s@.len(),
            strip_leading(s@, c) == strip_leading(s@.skip(i as int), c),
        decreases s.len() - i,
    {
        assert(s@.skip(i as int).drop_first() =~= s@.skip(i + 1));
        i += 1;
    }
    let r = slice_chars(s, i, s.len());
    assert(r@ =~= s@.skip(i as int));
    r
}

fn readme_line_exec(text: &str) -> (r: Vec<char>)
    ensures
        r@ == readme_line(text@),
{
    let v = chars_of(text);
    let ls = lines_exec(&v);
    let ghost lm = ls@.map_values(|l: Vec<char>| l@);
    let hash = chars_of("#");
    let lt = chars_of("<");
    let note = chars_of("[!");
    let image = chars_of("![");
    let rule = chars_of("---");
    let head = chars_of("# ");
    let mut i: usize = 0;
    assert(lm.skip(0) =~= lm);
    while i < ls.len()
        invariant
            i <= ls@.len(),
            lm == ls@.map_values(|l: Vec<char>| l@),
            lm == lines_of(text@),
            hash@ == "#"@,
            lt@ == "<"@,
            note@ == "[!"@,
            image@ == "!["@,
            rule@ == "---"@,
            first_plain(lm) == first_plain(lm.skip(i as int)),
        decreases ls.len() - i,
    {
        assert(lm.skip(i as int).drop_first() =~= lm.skip(i + 1));
        assert(lm.skip(i as int)[0] == ls@[i as int]@);
        let t = trim_chars(&ls[i]);
        if t.len() > 0 && !starts_with_at_exec(&t, 0, &hash) && !starts_with_at_exec(&t, 0, &lt)
            && !starts_with_at_exec(&t, 0, &note) && !starts_with_at_exec(&t, 0, &image)
            && !starts_with_at_exec(&t, 0, &rule) {
            return t;
        }
        i += 1;
    }
    assert(lm.skip(ls@.len() as int) =~= Seq::<Seq<char>>::empty());
    let mut k: usize = 0;
    assert(lm.skip(0) =~= lm);
    while k < ls.len()
        invariant
            k <= ls@.len(),
            lm == ls@.map_values(|l: Vec<char>| l@),
            lm == lines_of(text@),
            first_plain(lm) is None,
            head@ == "# "@,
            first_heading(lm) == first_heading(lm.skip(k as int)),
        decreases ls.len() - k,
    {
        assert(lm.skip(k as int).drop_first() =~= lm.skip(k + 1));
        assert(lm.skip(k as int)[0] == ls@[k as int]@);
        let t = trim_chars(&ls[k]);
        if starts_with_at_exec(&t, 0, &head) {
            let h = strip_leading_exec(&t, '#');
            return trim_chars(&h);
        }
        k += 1;
    }
    assert(lm.skip(ls@.len() as int) =~= Seq::<Seq<char>>::empty());
    Vec::new()
}

/// The catalog summary of a README's text (see `summary_of`).
pub fn readme_summary(text: &str) -> (r: String)
    ensures
        r@ == summary_of(text@),
{
    let line = readme_line_exec(text);
    let line = string_of(&line);
    let c = clean_markdown(line.as_str());
    let v = chars_of(c.as_str());
    if v.len() <= 140 {
        c
    } else {
        let t = slice_chars(&v, 0, 140);
        assert(t@ =~= v@.take(140));
        string_of(&t)
    }
}

proof fn lemma_back_white_past(s: Seq<char>, j: int, m: int)
    requires
        0 <= m < j <= s.len(),
        !is_white_space(s[m]),
    ensures
        m < back_white(s, j) <= j,
    decreases j,
{
    if is_white_space(s[j - 1]) {
        lemma_back_white_past(s, j - 1, m);
    }
}

/// A line that starts with `![` trims to text that starts with `![`.
proof fn lemma_image_line_trims(l: Seq<char>)
    requires
        starts_with_at(l, 0, "!["@),
    ensures
        starts_with_at(trim(l), 0, "!["@),
        !starts_with_at(trim(l), 0, "# "@),
{
    reveal_strlit("![");
    reveal_strlit("# ");
    assert(l.subrange(0, 2)[0] == l[0]);
    assert(l.subrange(0, 2)[1] == l[1]);
    assert(skip_white(l, 0) == 0);
    lemma_back_white_past(l, l.len() as int, 1);
    assert(trim(l)[0] == l[0]);
    assert(trim(l)[1] == l[1]);
    assert(trim(l).subrange(0, 2) =~= "!["@);
}

proof fn lemma_first_plain_found(ls: Seq<Seq<char>>, i: int)
    requires
        0 <= i < ls.len(),
        plain_line(trim(ls[i])),
    ensures
        first_plain(ls) matches Some(t) && plain_line(t),
    decreases ls.len(),
{
    if !plain_line(trim(ls[0])) {
        assert(ls.drop_first()[i - 1] == ls[i]);
        lemma_first_plain_found(ls.drop_first(), i - 1);
    }
}

/// The summary line is never a Markdown image while the README has a line
/// that, trimmed, is not empty and starts with none of `#`, `<`, `[!`, `![`
/// and `---`.
pub proof fn summary_line_is_never_an_image(text: Seq<char>, i: int)
    requires
        0 <= i < lines_of(text).len(),
        ({
            let t = trim(lines_of(text)[i]);
            &&& t.len() > 0
            &&& !starts_with_at(t, 0, "#"@)
            &&& !starts_with_at(t, 0, "<"@)
            &&& !starts_with_at(t, 0, "[!"@)
            &&& !starts_with_at(t, 0, "!["@)
            &&& !starts_with_at(t, 0, "---"@)
        }),
    ensures
        !starts_with_at(readme_line(text), 0, "!["@),
{
    lemma_first_plain_found(lines_of(text), i);
}

/// A leading Markdown image line is passed over: the summary line of the
/// README is that of the text after it.
pub proof fn image_lines_are_skipped(img: Seq<char>, rest: Seq<char>)
    requires
        starts_with_at(img, 0, "!["@),
        forall|k: int| 0 <= k < img.len() ==> img[k] != '\n',
    ensures
        readme_line(img + seq!['\n'] + rest) == readme_line(rest),
{
    let s = img + seq!['\n'] + rest;
    let x = img + seq!['\n'];
    lemma_find_char_bounds(s, 0, '\n');
    assert(s[img.len() as int] == '\n');
    assert(find_char(s, 0, '\n') == img.len()) by {
        let f = find_char(s, 0, '\n');
        if f < img.len() {
            assert(s[f] == img[f]);
        }
    }
    assert(s.subrange(0, img.len() + 1int) =~= x);
    assert(s.subrange(img.len() + 1int, s.len() as int) =~= rest);
    let ls = lines_of(s);
    assert(ls == seq![x] + lines_of(rest));
    assert(starts_with_at(x, 0, "!["@)) by {
        reveal_strlit("![");
        assert(x.subrange(0, 2) =~= img.subrange(0, 2));
    }
    lemma_image_line_trims(x);
    assert(!plain_line(trim(x)));
    assert(ls[0] == x);
    assert(ls.drop_first() =~= lines_of(rest));
}

} // verus!


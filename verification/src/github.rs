//! GitHub repository names and the rules for reading GitHub API answers.
//! The HTTP requests themselves are made by the application; this module
//! decides what their answers mean.
use crate::config::{component, is_component, strings_model};
use crate::text::lemma_find_char_bounds;
use crate::text::{
    chars_of, decimal, decimal_exec, extend_chars, extend_str, find_char,
    find_char_at, is_white_space, owned, slice_chars, starts_with_at,
    starts_with_at_exec, string_of, trim, trim_chars, white_space,
};
use vstd::prelude::*;

verus! {

/// A GitHub repository, `owner/name`.
#[derive(Debug)]
pub struct Repo {
    pub owner: String,
    pub name: String,
}

impl Clone for Repo {
    fn clone(&self) -> (r: Repo)
        ensures
            r == *self,
    {
        Repo { owner: self.owner.clone(), name: self.name.clone() }
    }
}

/// `s` without every trailing repetition of `w`.
pub open spec fn strip_all_suffix(s: Seq<char>, w: Seq<char>) -> Seq<char>
    decreases s.len(),
{
    if w.len() > 0 && s.len() >= w.len() && s.subrange(s.len() - w.len(), s.len() as int) == w {
        strip_all_suffix(s.subrange(0, s.len() - w.len()), w)
    } else {
        s
    }
}

/// `s` without the prefix `w` when it has it.
pub open spec fn strip_prefix(s: Seq<char>, w: Seq<char>) -> Seq<char> {
    if starts_with_at(s, 0, w) {
        s.subrange(w.len() as int, s.len() as int)
    } else {
        s
    }
}

/// The `owner/name` text of a repository reference: trimmed, without
/// trailing `/` and `.git`, and without a `https://github.com/` or
/// `git@github.com:` prefix.
pub open spec fn repo_text(s: Seq<char>) -> Seq<char> {
    let t = strip_all_suffix(strip_all_suffix(trim(s), seq!['/']), ".git"@);
    if starts_with_at(t, 0, "https://github.com/"@) {
        strip_prefix(t, "https://github.com/"@)
    } else {
        strip_prefix(t, "git@github.com:"@)
    }
}

/// What `Repo::parse` gives: the owner and name when the text is exactly
/// two components joined by `/`.
pub open spec fn repo_parse(s: Seq<char>) -> Option<(Seq<char>, Seq<char>)> {
    let t = repo_text(s);
    let k = find_char(t, 0, '/');
    if k < t.len() && find_char(t, k + 1, '/') == t.len() && is_component(t.subrange(0, k))
        && is_component(t.subrange(k + 1, t.len() as int)) {
        Some((t.subrange(0, k), t.subrange(k + 1, t.len() as int)))
    } else {
        None
    }
}

pub fn strip_all_suffix_exec(s: Vec<char>, w: &Vec<char>) -> (r: Vec<char>)
    ensures
        r@ == strip_all_suffix(s@, w@),
{
    let mut t = s;
    loop
        invariant
            strip_all_suffix(t@, w@) == strip_all_suffix(s@, w@),
        decreases t.len(),
    {
        if w.len() > 0 && t.len() >= w.len() && starts_with_at_exec(&t, t.len() - w.len(), w) {
            t = slice_chars(&t, 0, t.len() - w.len());
        } else {
            return t;
        }
    }
}

fn strip_prefix_exec(s: Vec<char>, w: &Vec<char>) -> (r: Vec<char>)
    ensures
        r@ == strip_prefix(s@, w@),
{
    if starts_with_at_exec(&s, 0, w) {
        slice_chars(&s, w.len(), s.len())
    } else {
        s
    }
}

fn repo_text_exec(s: &str) -> (r: Vec<char>)
    ensures
        r@ == repo_text(s@),
{
    let v = chars_of(s);
    let t = trim_chars(&v);
    let slash = chars_of("/");
    proof {
        reveal_strlit("/");
        assert(slash@ =~= seq!['/']);
    }
    let t = strip_all_suffix_exec(t, &slash);
    let git = chars_of(".git");
    let t = strip_all_suffix_exec(t, &git);
    let https = chars_of("https://github.com/");
    if starts_with_at_exec(&t, 0, &https) {
        strip_prefix_exec(t, &https)
    } else {
        let ssh = chars_of("git@github.com:");
        strip_prefix_exec(t, &ssh)
    }
}

impl Repo {
    pub open spec fn model(&self) -> (Seq<char>, Seq<char>) {
        (self.owner@, self.name@)
    }

    /// Reads `owner/repository`, an HTTPS GitHub URL or an SSH GitHub
    /// address (see `repo_parse`).
    pub fn parse(s: &str) -> (r: Result<Repo, String>)
        ensures
            match r {
                Ok(repo) => repo_parse(s@) == Some(repo.model()),
                Err(e) => repo_parse(s@) is None && e@
                    == "Use a GitHub owner/repository or HTTPS repository URL"@,
            },
    {
        let t = repo_text_exec(s);
        let k = find_char_at(&t, 0, '/');
        if k < t.len() && find_char_at(&t, k + 1, '/') == t.len() {
            let owner = slice_chars(&t, 0, k);
            let name = slice_chars(&t, k + 1, t.len());
            let owner = string_of(&owner);
            let name = string_of(&name);
            if component(owner.as_str()) && component(name.as_str()) {
                return Ok(Repo { owner, name });
            }
        }
        Err(owned("Use a GitHub owner/repository or HTTPS repository URL"))
    }

    /// `owner/name`.
    pub fn slug(&self) -> (r: String)
        ensures
            r@ == self.owner@ + "/"@ + self.name@,
    {
        let mut v = chars_of(self.owner.as_str());
        extend_str(&mut v, "/");
        extend_str(&mut v, self.name.as_str());
        string_of(&v)
    }

    /// The HTTPS clone URL.
    pub fn url(&self) -> (r: String)
        ensures
            r@ == "https://github.com/"@ + self.owner@ + "/"@ + self.name@ + ".git"@,
    {
        let mut v = chars_of("https://github.com/");
        let slug = self.slug();
        extend_str(&mut v, slug.as_str());
        extend_str(&mut v, ".git");
        string_of(&v)
    }
}

/// A repository found by a search.
#[derive(Clone, Debug)]
pub struct Candidate {
    pub repo: Repo,
    pub summary: String,
    pub stars: u64,
    pub license: String,
    pub updated: String,
}

/// A page of search results with the rate-limit state GitHub reported.
#[derive(Clone, Debug)]
pub struct Search {
    pub items: Vec<Candidate>,
    pub remaining: Option<String>,
    pub reset: Option<String>,
    pub checked: u64,
    pub cached: bool,
}

/// The fields of a repository object in a GitHub answer that a candidate
/// is made of, each present only when it has the expected JSON type.
#[derive(Clone, Debug)]
pub struct RepoFields {
    pub full_name: Option<String>,
    pub description: Option<String>,
    pub stargazers_count: Option<u64>,
    pub license_spdx_id: Option<String>,
    pub updated_at: Option<String>,
}

/// The text of an optional field, or `default`.
pub open spec fn text_or(v: Option<String>, default: Seq<char>) -> Seq<char> {
    match v {
        Some(s) => s@,
        None => default,
    }
}

fn text_or_exec(v: &Option<String>, default: &str) -> (r: String)
    ensures
        r@ == text_or(*v, default@),
{
    match v {
        Some(s) => s.clone(),
        None => owned(default),
    }
}

/// Makes a search candidate from a repository object: the name must be
/// present and a valid `owner/name`; the description defaults to
/// `No description`, the stars to 0, the license to `Unknown` and the update
/// time to empty.
pub fn candidate(v: &RepoFields) -> (r: Result<Candidate, String>)
    ensures
        match v.full_name {
            None => r matches Err(e) && e@ == "Missing repository name"@,
            Some(n) => match repo_parse(n@) {
                None => r matches Err(e) && e@
                    == "Use a GitHub owner/repository or HTTPS repository URL"@,
                Some(m) => r matches Ok(c) && c.repo.model() == m && c.summary@ == text_or(
                    v.description,
                    "No description"@,
                ) && c.stars == match v.stargazers_count {
                    Some(n) => n,
                    None => 0,
                } && c.license@ == text_or(v.license_spdx_id, "Unknown"@) && c.updated@ == text_or(
                    v.updated_at,
                    ""@,
                ),
            },
        },
{
    let name = match &v.full_name {
        Some(n) => n,
        None => {
            return Err(owned("Missing repository name"));
        },
    };
    let repo = match Repo::parse(name.as_str()) {
        Ok(r) => r,
        Err(e) => {
            return Err(e);
        },
    };
    Ok(
        Candidate {
            repo,
            summary: text_or_exec(&v.description, "No description"),
            stars: match v.stargazers_count {
                Some(n) => n,
                None => 0,
            },
            license: text_or_exec(&v.license_spdx_id, "Unknown"),
            updated: text_or_exec(&v.updated_at, ""),
        },
    )
}

/// The repositories of a search answer that make valid candidates, in order.
pub open spec fn valid_candidates(items: Seq<RepoFields>) -> Seq<RepoFields>
    decreases items.len(),
{
    if items.len() == 0 {
        Seq::empty()
    } else {
        let rest = valid_candidates(items.drop_last());
        match items.last().full_name {
            Some(n) if repo_parse(n@) is Some => rest.push(items.last()),
            _ => rest,
        }
    }
}

/// The search text sent to GitHub: the query, trimmed, limited to zsh plugins.
pub fn search_query(q: &str) -> (r: String)
    ensures
        r@ == trim(q@) + " topic:zsh-plugin"@,
{
    let v = chars_of(q);
    let mut t = trim_chars(&v);
    extend_str(&mut t, " topic:zsh-plugin");
    string_of(&t)
}

/// A search result page: the candidates that the answer's items make (items
/// without a valid repository name are skipped), with the rate-limit state.
pub fn search_page(
    items: &Vec<RepoFields>,
    remaining: Option<String>,
    reset: Option<String>,
    checked: u64,
) -> (r: Search)
    ensures
        r.items@.len() == valid_candidates(items@).len(),
        forall|k: int|
            0 <= k < r.items@.len() ==> candidate_of(valid_candidates(items@)[k], #[trigger] r.items@[k]),
        r.remaining == remaining,
        r.reset == reset,
        r.checked == checked,
        !r.cached,
{
    let mut out: Vec<Candidate> = Vec::new();
    let mut i: usize = 0;
    while i < items.len()
        invariant
            i <= items.len(),
            out@.len() == valid_candidates(items@.take(i as int)).len(),
            forall|k: int|
                0 <= k < out@.len() ==> candidate_of(valid_candidates(items@.take(i as int))[k], #[trigger] out@[k]),
        decreases items.len() - i,
    {
        assert(items@.take(i + 1).drop_last() =~= items@.take(i as int));
        assert(items@.take(i + 1).last() == items@[i as int]);
        match candidate(&items[i]) {
            Ok(c) => {
                out.push(c);
            },
            Err(_) => {},
        }
        i += 1;
    }
    assert(items@.take(items.len() as int) =~= items@);
    Search { items: out, remaining, reset, checked, cached: false }
}

/// `c` is the candidate that the repository object `v` makes.
pub open spec fn candidate_of(v: RepoFields, c: Candidate) -> bool {
    &&& v.full_name is Some
    &&& repo_parse(v.full_name->0@) == Some(c.repo.model())
    &&& c.summary@ == text_or(v.description, "No description"@)
    &&& c.stars == match v.stargazers_count {
        Some(n) => n,
        None => 0,
    }
    &&& c.license@ == text_or(v.license_spdx_id, "Unknown"@)
    &&& c.updated@ == text_or(v.updated_at, ""@)
}

/// 40 hexadecimal digits.
pub open spec fn is_sha(s: Seq<char>) -> bool {
    s.len() == 40 && forall|i: int| 0 <= i < 40 ==> crate::text::is_hex_digit(#[trigger] s[i])
}

/// Whether `s` is a full commit SHA: 40 hexadecimal digits.
pub fn full_sha(s: &str) -> (r: bool)
    ensures
        r == is_sha(s@),
{
    let v = chars_of(s);
    if v.len() != 40 {
        return false;
    }
    let mut i: usize = 0;
    while i < 40
        invariant
            v.len() == 40,
            v@ == s@,
            i <= 40,
            forall|k: int| 0 <= k < i ==> crate::text::is_hex_digit(#[trigger] v@[k]),
        decreases 40 - i,
    {
        let c = v[i];
        if !(('a' <= c && c <= 'f') || ('A' <= c && c <= 'F') || ('0' <= c && c <= '9')) {
            return false;
        }
        i += 1;
    }
    true
}

/// The `sha` of a commit answer: missing, not a full SHA, or the SHA.
pub fn head_sha(sha: Option<String>) -> (r: Result<String, String>)
    ensures
        match sha {
            None => r matches Err(e) && e@ == "Missing SHA"@,
            Some(s) => if is_sha(s@) {
                r matches Ok(x) && x@ == s@
            } else {
                r matches Err(e) && e@ == "Invalid upstream SHA"@
            },
        },
{
    match sha {
        None => Err(owned("Missing SHA")),
        Some(s) => {
            if full_sha(s.as_str()) {
                Ok(s)
            } else {
                Err(owned("Invalid upstream SHA"))
            }
        },
    }
}

/// One commit of a compare answer.
#[derive(Clone, Debug)]
pub struct CommitFields {
    pub sha: Option<String>,
    pub message: Option<String>,
}

/// `str::lines().next()`: the first line, without its `\n` or `\r\n`.
pub open spec fn first_line(m: Seq<char>) -> Seq<char> {
    let k = find_char(m, 0, '\n');
    if k < m.len() {
        if k > 0 && m[k - 1] == '\r' {
            m.subrange(0, k - 1)
        } else {
            m.subrange(0, k)
        }
    } else {
        m
    }
}

/// `short-sha first-line-of-message` for one commit.
pub open spec fn commit_line(c: CommitFields) -> Seq<char> {
    let sha = text_or(c.sha, ""@);
    let short = if sha.len() <= 8 {
        sha
    } else {
        sha.subrange(0, 8)
    };
    short + " "@ + first_line(text_or(c.message, ""@))
}

/// The lines of the first 30 commits, joined by newlines.
pub open spec fn commit_summary_text(commits: Seq<CommitFields>) -> Seq<char> {
    let n = if commits.len() < 30 {
        commits.len() as int
    } else {
        30
    };
    crate::config::join(commits.take(n).map_values(|c: CommitFields| commit_line(c)), "\n"@)
}

fn commit_line_exec(c: &CommitFields) -> (r: Vec<char>)
    ensures
        r@ == commit_line(*c),
{
    let sha = chars_of(text_or_exec(&c.sha, "").as_str());
    let short = if sha.len() <= 8 {
        sha
    } else {
        slice_chars(&sha, 0, 8)
    };
    let mut out = short;
    extend_str(&mut out, " ");
    let m = chars_of(text_or_exec(&c.message, "").as_str());
    let k = find_char_at(&m, 0, '\n');
    let line = if k < m.len() {
        if k > 0 && m[k - 1] == '\r' {
            slice_chars(&m, 0, k - 1)
        } else {
            slice_chars(&m, 0, k)
        }
    } else {
        m
    };
    extend_chars(&mut out, &line);
    out
}

/// The change summary of a compare answer (see `commit_summary_text`).
pub fn commit_summary(commits: &Vec<CommitFields>) -> (r: String)
    ensures
        r@ == commit_summary_text(commits@),
{
    let n: usize = if commits.len() < 30 {
        commits.len()
    } else {
        30
    };
    let ghost lines = commits@.take(n as int).map_values(|c: CommitFields| commit_line(c));
    let mut out: Vec<char> = Vec::new();
    let mut i: usize = 0;
    while i < n
        invariant
            n <= commits.len(),
            i <= n,
            lines == commits@.take(n as int).map_values(|c: CommitFields| commit_line(c)),
            out@ == crate::config::join(lines.take(i as int), "\n"@),
        decreases n - i,
    {
        if i > 0 {
            extend_str(&mut out, "\n");
        }
        let l = commit_line_exec(&commits[i]);
        extend_chars(&mut out, &l);
        assert(lines[i as int] == commit_line(commits@[i as int]));
        assert(lines.take(i + 1).drop_last() =~= lines.take(i as int));
        if i == 0 {
            assert(lines.take(1) =~= seq![lines[0]]);
        }
        i += 1;
    }
    assert(lines.take(n as int) =~= lines);
    string_of(&out)
}

/// One entry of the official plugin directory listing.
#[derive(Clone, Debug)]
pub struct EntryFields {
    pub kind: Option<String>,
    pub name: Option<String>,
}

/// The entry is a directory whose name is a component.
pub open spec fn official_entry(e: EntryFields) -> bool {
    &&& e.kind matches Some(k) && k@ == "dir"@
    &&& e.name matches Some(n) && is_component(n@)
}

/// The names of the official plugins: the directories of the listing whose
/// names are components, in order.
pub open spec fn official_names_spec(es: Seq<EntryFields>) -> Seq<Seq<char>>
    decreases es.len(),
{
    if es.len() == 0 {
        Seq::empty()
    } else if official_entry(es.last()) {
        official_names_spec(es.drop_last()).push(es.last().name->0@)
    } else {
        official_names_spec(es.drop_last())
    }
}

/// The official plugin names of a directory listing (see `official_names_spec`).
pub fn official_names(es: &Vec<EntryFields>) -> (r: Vec<String>)
    ensures
        strings_model(r@) == official_names_spec(es@),
{
    let dir = owned("dir");
    let mut out: Vec<String> = Vec::new();
    let mut i: usize = 0;
    while i < es.len()
        invariant
            i <= es.len(),
            dir@ == "dir"@,
            strings_model(out@) == official_names_spec(es@.take(i as int)),
        decreases es.len() - i,
    {
        assert(es@.take(i + 1).drop_last() =~= es@.take(i as int));
        assert(es@.take(i + 1).last() == es@[i as int]);
        let e = &es[i];
        let is_dir = match &e.kind {
            Some(k) => *k == dir,
            None => false,
        };
        if is_dir {
            match &e.name {
                Some(n) => {
                    if component(n.as_str()) {
                        let ghost before = strings_model(out@);
                        out.push(n.clone());
                        assert(strings_model(out@) =~= before.push(n@));
                    }
                },
                None => {},
            }
        }
        i += 1;
    }
    assert(es@.take(es.len() as int) =~= es@);
    out
}

/// The error for a GitHub HTTP status: a rejected token (401), a rate limit
/// or permission error (403, 429) with the remaining quota and reset time,
/// any other status outside 200..=299, or none.
pub open spec fn status_error(status: u16, remaining: Option<String>, reset: Option<String>) -> Option<Seq<char>> {
    if status == 401 {
        Some("GitHub token rejected (401). Replace it in Settings or use anonymous access."@)
    } else if status == 403 || status == 429 {
        Some("GitHub limit or permission error ("@ + decimal(status as nat)
            + "). Remaining: "@ + text_or(remaining, "unknown"@) + ". Reset (Unix seconds): "@
            + text_or(reset, "unknown"@) + ". Optional token in Settings."@)
    } else if !(200 <= status <= 299) {
        Some("GitHub returned "@ + decimal(status as nat))
    } else {
        None
    }
}

/// What a GitHub HTTP status means (see `status_error`).
pub fn response_error(status: u16, remaining: &Option<String>, reset: &Option<String>) -> (r: Option<String>)
    ensures
        match r {
            Some(e) => status_error(status, *remaining, *reset) == Some(e@),
            None => status_error(status, *remaining, *reset) is None,
        },
{
    if status == 401 {
        return Some(owned("GitHub token rejected (401). Replace it in Settings or use anonymous access."));
    }
    if status == 403 || status == 429 {
        let mut v = chars_of("GitHub limit or permission error (");
        let d = decimal_exec(status as usize);
        extend_chars(&mut v, &d);
        extend_str(&mut v, "). Remaining: ");
        let rem = text_or_exec(remaining, "unknown");
        extend_str(&mut v, rem.as_str());
        extend_str(&mut v, ". Reset (Unix seconds): ");
        let rs = text_or_exec(reset, "unknown");
        extend_str(&mut v, rs.as_str());
        extend_str(&mut v, ". Optional token in Settings.");
        return Some(string_of(&v));
    }
    if !(200 <= status && status <= 299) {
        let mut v = chars_of("GitHub returned ");
        let d = decimal_exec(status as usize);
        extend_chars(&mut v, &d);
        return Some(string_of(&v));
    }
    None
}

/// What saving a token does: an empty token removes the stored one, a token
/// with white space is refused, any other is stored.
pub enum TokenAction {
    Remove,
    Reject(String),
    Store,
}

/// Decides what saving `s` as the token does (see `TokenAction`).
pub fn token_action(s: &str) -> (r: TokenAction)
    ensures
        s@.len() == 0 ==> r is Remove,
        s@.len() > 0 && (exists|i: int| 0 <= i < s@.len() && is_white_space(#[trigger] s@[i]))
            ==> (r matches TokenAction::Reject(e) && e@ == "Token must not contain spaces"@),
        s@.len() > 0 && !(exists|i: int| 0 <= i < s@.len() && is_white_space(#[trigger] s@[i]))
            ==> r is Store,
{
    let v = chars_of(s);
    if v.len() == 0 {
        return TokenAction::Remove;
    }
    let mut i: usize = 0;
    while i < v.len()
        invariant
            i <= v.len(),
            v@ == s@,
            forall|k: int| 0 <= k < i ==> !is_white_space(#[trigger] v@[k]),
        decreases v.len() - i,
    {
        if white_space(v[i]) {
            return TokenAction::Reject(owned("Token must not contain spaces"));
        }
        i += 1;
    }
    TokenAction::Store
}

/// The seconds since the Unix epoch.
pub fn seconds() -> u64 {
    crate::system::seconds()
}


/// A repository reference is accepted only as two plain path components,
/// so no path taken from it can leave the directory it is placed in.
pub proof fn repositories_are_plain_components(s: Seq<char>)
    ensures
        match repo_parse(s) {
            Some((owner, name)) => is_component(owner) && is_component(name),
            None => true,
        },
{
}


/// `t` ends with `w`.
pub open spec fn has_suffix(t: Seq<char>, w: Seq<char>) -> bool {
    t.len() >= w.len() && t.subrange(t.len() - w.len(), t.len() as int) == w
}

/// The text `owner/name`, preceded by `pre`, in which every character but
/// the one slash comes from the two components.
proof fn lemma_slug_chars(pre: Seq<char>, owner: Seq<char>, name: Seq<char>)
    requires
        is_component(owner),
        is_component(name),
    ensures
        ({
            let t = pre + owner + "/"@ + name;
            let k = (pre.len() + owner.len()) as int;
            &&& t.len() == k + 1 + name.len()
            &&& t[k] == '/'
            &&& forall|i: int| pre.len() <= i < k ==> #[trigger] t[i] == owner[i - pre.len()]
            &&& forall|i: int| k < i < t.len() ==> #[trigger] t[i] == name[i - k - 1]
        }),
{
    reveal_strlit("/");
}

proof fn lemma_component_char_plain(c: char)
    requires
        crate::config::is_component_char(c),
    ensures
        !is_white_space(c),
        c != '/',
        c != ':',
        c != '@',
{
}

/// A repository's slug and its clone URL read back as the same repository,
/// for every repository whose name does not end with `.git` (that suffix
/// is taken as part of a URL).
pub proof fn repositories_round_trip(owner: Seq<char>, name: Seq<char>)
    requires
        is_component(owner),
        is_component(name),
        !has_suffix(name, ".git"@),
    ensures
        repo_parse(owner + "/"@ + name) == Some((owner, name)),
        repo_parse("https://github.com/"@ + owner + "/"@ + name + ".git"@) == Some((owner, name)),
{
    reveal_strlit("/");
    reveal_strlit(".git");
    reveal_strlit("https://github.com/");
    reveal_strlit("git@github.com:");
    let t = owner + "/"@ + name;
    let k = owner.len() as int;
    lemma_slug_chars(Seq::empty(), owner, name);
    assert(Seq::<char>::empty() + owner + "/"@ + name == t);
    assert forall|i: int| 0 <= i < t.len() implies #[trigger] t[i] == '/' <==> i == k by {
        if i < k {
            lemma_component_char_plain(owner[i]);
        } else if i > k {
            lemma_component_char_plain(name[i - k - 1]);
        }
    }
    // the slug is its own trimmed, unsuffixed text
    lemma_component_char_plain(owner[0]);
    lemma_component_char_plain(name[name.len() - 1]);
    assert(t[0] == owner[0]);
    assert(t[t.len() - 1] == name[name.len() - 1]);
    assert(crate::text::skip_white(t, 0) == 0);
    assert(crate::text::back_white(t, t.len() as int) == t.len());
    assert(trim(t) =~= t);
    assert(!(t.subrange(t.len() - 1, t.len() as int) =~= seq!['/'])) by {
        assert(t.subrange(t.len() - 1, t.len() as int)[0] == t[t.len() - 1]);
    }
    assert(strip_all_suffix(t, seq!['/']) == t);
    lemma_no_git_suffix(Seq::empty(), owner, name);
    assert(strip_all_suffix(t, ".git"@) == t);
    // neither prefix is there
    assert(!starts_with_at(t, 0, "https://github.com/"@)) by {
        if starts_with_at(t, 0, "https://github.com/"@) {
            assert(t.subrange(0, 19)[5] == ':');
            if k > 5 {
                lemma_component_char_plain(owner[5]);
            } else if k < 5 {
                lemma_component_char_plain(name[5 - k - 1]);
            }
        }
    }
    assert(!starts_with_at(t, 0, "git@github.com:"@)) by {
        if starts_with_at(t, 0, "git@github.com:"@) {
            assert(t.subrange(0, 15)[3] == '@');
            if k > 3 {
                lemma_component_char_plain(owner[3]);
            } else if k < 3 {
                lemma_component_char_plain(name[3 - k - 1]);
            }
        }
    }
    assert(repo_text(t) == t);
    lemma_split_slug(t, owner, name);
    // the URL
    let p = "https://github.com/"@;
    let u = p + owner + "/"@ + name + ".git"@;
    let v = p + owner + "/"@ + name;
    lemma_slug_chars(p, owner, name);
    assert(u.len() == v.len() + 4);
    assert(u.subrange(0, v.len() as int) =~= v);
    assert(u.subrange(v.len() as int, u.len() as int) =~= ".git"@);
    assert(u[0] == 'h');
    assert(u[u.len() - 1] == 't');
    assert(crate::text::skip_white(u, 0) == 0);
    assert(crate::text::back_white(u, u.len() as int) == u.len());
    assert(trim(u) =~= u);
    assert(!(u.subrange(u.len() - 1, u.len() as int) =~= seq!['/'])) by {
        assert(u.subrange(u.len() - 1, u.len() as int)[0] == u[u.len() - 1]);
    }
    assert(strip_all_suffix(u, seq!['/']) == u);
    assert(u.subrange(u.len() - 4, u.len() as int) =~= ".git"@);
    assert(u.subrange(0, u.len() - 4) =~= v);
    lemma_no_git_suffix(p, owner, name);
    assert(strip_all_suffix(v, ".git"@) == v);
    assert(strip_all_suffix(u, ".git"@) == v);
    assert(v.subrange(0, 19) =~= p);
    assert(starts_with_at(v, 0, p));
    assert(v.subrange(19, v.len() as int) =~= t);
    assert(repo_text(u) == t);
}

/// `pre + owner/name` does not end with `.git` when the name does not.
proof fn lemma_no_git_suffix(pre: Seq<char>, owner: Seq<char>, name: Seq<char>)
    requires
        is_component(owner),
        is_component(name),
        !has_suffix(name, ".git"@),
    ensures
        !has_suffix(pre + owner + "/"@ + name, ".git"@),
        strip_all_suffix(pre + owner + "/"@ + name, ".git"@) == pre + owner + "/"@ + name,
{
    reveal_strlit(".git");
    reveal_strlit("/");
    let t = pre + owner + "/"@ + name;
    let k = (pre.len() + owner.len()) as int;
    lemma_slug_chars(pre, owner, name);
    if t.len() >= 4 && t.subrange(t.len() - 4, t.len() as int) =~= ".git"@ {
        if name.len() >= 4 {
            assert(name.subrange(name.len() - 4, name.len() as int) =~= t.subrange(
                t.len() - 4,
                t.len() as int,
            ));
        } else {
            let j = k - (t.len() - 4);
            assert(0 <= j < 4);
            assert(t.subrange(t.len() - 4, t.len() as int)[j] == t[k]);
            assert(".git"@[j] != '/');
        }
    }
}

/// The slug `owner/name` splits at its one slash into the two components.
proof fn lemma_split_slug(t: Seq<char>, owner: Seq<char>, name: Seq<char>)
    requires
        is_component(owner),
        is_component(name),
        t == owner + "/"@ + name,
        forall|i: int| 0 <= i < t.len() ==> (#[trigger] t[i] == '/' <==> i == owner.len()),
        repo_text(t) == t,
    ensures
        repo_parse(t) == Some((owner, name)),
{
    reveal_strlit("/");
    let k = owner.len() as int;
    lemma_find_char_bounds(t, 0, '/');
    let f = find_char(t, 0, '/');
    assert(f == k) by {
        if f < k {
            assert(t[f] == '/');
        } else if f > k {
            assert(t[k] == '/');
        }
    }
    lemma_find_char_bounds(t, k + 1, '/');
    let g = find_char(t, k + 1, '/');
    assert(g == t.len()) by {
        if g < t.len() {
            assert(t[g] == '/');
        }
    }
    assert(t.subrange(0, k) =~= owner);
    assert(t.subrange(k + 1, t.len() as int) =~= name);
}

/// A repository written as an SSH address or as a slug with `.git` reads
/// back as the same repository as its plain slug: for every repository whose
/// name does not end with `.git`.
pub proof fn repository_spellings_agree(owner: Seq<char>, name: Seq<char>)
    requires
        is_component(owner),
        is_component(name),
        !has_suffix(name, ".git"@),
    ensures
        repo_parse("git@github.com:"@ + owner + "/"@ + name + ".git"@) == Some((owner, name)),
        repo_parse("git@github.com:"@ + owner + "/"@ + name) == Some((owner, name)),
        repo_parse(owner + "/"@ + name + ".git"@) == Some((owner, name)),
{
    reveal_strlit("/");
    reveal_strlit(".git");
    reveal_strlit("https://github.com/");
    reveal_strlit("git@github.com:");
    repositories_round_trip(owner, name);
    let t = owner + "/"@ + name;
    let k = owner.len() as int;
    lemma_slug_chars(Seq::empty(), owner, name);
    assert(Seq::<char>::empty() + owner + "/"@ + name == t);
    assert forall|i: int| 0 <= i < t.len() implies #[trigger] t[i] == '/' <==> i == k by {
        if i < k {
            lemma_component_char_plain(owner[i]);
        } else if i > k {
            lemma_component_char_plain(name[i - k - 1]);
        }
    }
    lemma_no_git_suffix(Seq::empty(), owner, name);
    assert(strip_all_suffix(t, ".git"@) == t);
    assert(!starts_with_at(t, 0, "https://github.com/"@)) by {
        if starts_with_at(t, 0, "https://github.com/"@) {
            assert(t.subrange(0, 19)[5] == ':');
            if k > 5 {
                lemma_component_char_plain(owner[5]);
            } else if k < 5 {
                lemma_component_char_plain(name[5 - k - 1]);
            }
        }
    }
    assert(!starts_with_at(t, 0, "git@github.com:"@)) by {
        if starts_with_at(t, 0, "git@github.com:"@) {
            assert(t.subrange(0, 15)[3] == '@');
            if k > 3 {
                lemma_component_char_plain(owner[3]);
            } else if k < 3 {
                lemma_component_char_plain(name[3 - k - 1]);
            }
        }
    }
    lemma_component_char_plain(owner[0]);
    lemma_component_char_plain(name[name.len() - 1]);
    assert(t[0] == owner[0]);
    assert(t[t.len() - 1] == name[name.len() - 1]);
    assert(crate::text::skip_white(t, 0) == 0);
    assert(crate::text::back_white(t, t.len() as int) == t.len());
    assert(trim(t) =~= t);
    assert(!(t.subrange(t.len() - 1, t.len() as int) =~= seq!['/'])) by {
        assert(t.subrange(t.len() - 1, t.len() as int)[0] == t[t.len() - 1]);
    }
    assert(strip_all_suffix(t, seq!['/']) == t);
    assert(repo_text(t) == t);
    // the slug with `.git`
    let g = t + ".git"@;
    assert(g[0] == owner[0]);
    assert(g[g.len() - 1] == 't');
    assert(crate::text::skip_white(g, 0) == 0);
    assert(crate::text::back_white(g, g.len() as int) == g.len());
    assert(trim(g) =~= g);
    assert(!(g.subrange(g.len() - 1, g.len() as int) =~= seq!['/'])) by {
        assert(g.subrange(g.len() - 1, g.len() as int)[0] == g[g.len() - 1]);
    }
    assert(strip_all_suffix(g, seq!['/']) == g);
    assert(g.subrange(g.len() - 4, g.len() as int) =~= ".git"@);
    assert(g.subrange(0, g.len() - 4) =~= t);
    assert(strip_all_suffix(g, ".git"@) == t);
    assert(repo_text(g) == t);
    lemma_split_slug(t, owner, name);
    // the SSH address, with and without `.git`
    let p = "git@github.com:"@;
    let v = p + owner + "/"@ + name;
    let u = v + ".git"@;
    lemma_slug_chars(p, owner, name);
    lemma_no_git_suffix(p, owner, name);
    assert(v.subrange(0, 15) =~= p);
    assert(v.subrange(15, v.len() as int) =~= t);
    assert(!starts_with_at(v, 0, "https://github.com/"@)) by {
        if starts_with_at(v, 0, "https://github.com/"@) {
            assert(v.subrange(0, 19)[0] == 'h');
        }
    }
    assert(starts_with_at(v, 0, p));
    lemma_component_char_plain(name[name.len() - 1]);
    assert(v[0] == 'g');
    assert(v[v.len() - 1] == name[name.len() - 1]);
    assert(crate::text::skip_white(v, 0) == 0);
    assert(crate::text::back_white(v, v.len() as int) == v.len());
    assert(trim(v) =~= v);
    assert(!(v.subrange(v.len() - 1, v.len() as int) =~= seq!['/'])) by {
        assert(v.subrange(v.len() - 1, v.len() as int)[0] == v[v.len() - 1]);
    }
    assert(strip_all_suffix(v, seq!['/']) == v);
    assert(repo_text(v) == t);
    assert(u[0] == 'g');
    assert(u[u.len() - 1] == 't');
    assert(crate::text::skip_white(u, 0) == 0);
    assert(crate::text::back_white(u, u.len() as int) == u.len());
    assert(trim(u) =~= u);
    assert(!(u.subrange(u.len() - 1, u.len() as int) =~= seq!['/'])) by {
        assert(u.subrange(u.len() - 1, u.len() as int)[0] == u[u.len() - 1]);
    }
    assert(strip_all_suffix(u, seq!['/']) == u);
    assert(u.subrange(u.len() - 4, u.len() as int) =~= ".git"@);
    assert(u.subrange(0, u.len() - 4) =~= v);
    assert(strip_all_suffix(u, ".git"@) == v);
    assert(repo_text(u) == t);
}

} // verus!


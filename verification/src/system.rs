//! The paths of the Oh My Zsh layout and how `.zshrc` values resolve them.
//! Paths are held as text and joined with `/`; whether a path is absolute
//! follows the platform's rules (see `is_absolute_path`). The application
//! does the file-system work on them.
use crate::config::{component, is_component, literal_path, scalar_spec};
use crate::text::{
    chars_of, concat, extend_chars, extend_str, owned, slice_chars, starts_with_at,
    starts_with_at_exec, str_eq, string_of, trim, trim_chars,
};
use vstd::prelude::*;

verus! {

/// The seconds since the Unix epoch (`SystemTime::now`), 0 when the clock is
/// before the epoch. Nothing is claimed of the value: it is the time.
#[verifier::external_body]
pub fn seconds() -> u64 {
    std::time::SystemTime::now().duration_since(std::time::UNIX_EPOCH).unwrap_or_default().as_secs()
}

/// `Path::join` for `/`-separated paths: an absolute `part` replaces `base`;
/// otherwise `part` follows `base` with one separator.
pub open spec fn path_join(base: Seq<char>, part: Seq<char>) -> Seq<char> {
    if part.len() > 0 && part[0] == '/' {
        part
    } else if base.len() == 0 {
        part
    } else if base.last() == '/' {
        base + part
    } else {
        base + seq!['/'] + part
    }
}

/// Joins two paths (see `path_join`).
pub fn join(base: &str, part: &str) -> (r: String)
    ensures
        r@ == path_join(base@, part@),
{
    let b = chars_of(base);
    let p = chars_of(part);
    if p.len() > 0 && p[0] == '/' {
        return string_of(&p);
    }
    if b.len() == 0 {
        return string_of(&p);
    }
    let mut v = b;
    if v[v.len() - 1] != '/' {
        v.push('/');
    }
    extend_chars(&mut v, &p);
    string_of(&v)
}

/// `s` with every occurrence of `pat` from index `i` on, taken left to
/// right without overlap, replaced by `rep` (`str::replace`).
pub open spec fn replace_from(s: Seq<char>, pat: Seq<char>, rep: Seq<char>, i: int) -> Seq<char>
    decreases s.len() - i,
{
    if i < 0 || i >= s.len() {
        Seq::empty()
    } else if pat.len() > 0 && starts_with_at(s, i, pat) {
        rep + replace_from(s, pat, rep, i + pat.len())
    } else {
        seq![s[i]] + replace_from(s, pat, rep, i + 1)
    }
}

pub open spec fn replace_all(s: Seq<char>, pat: Seq<char>, rep: Seq<char>) -> Seq<char> {
    replace_from(s, pat, rep, 0)
}

fn replace_exec(s: &Vec<char>, pat: &str, rep: &str) -> (r: Vec<char>)
    requires
        pat@.len() > 0,
    ensures
        r@ == replace_all(s@, pat@, rep@),
{
    let p = chars_of(pat);
    let q = chars_of(rep);
    let mut out: Vec<char> = Vec::new();
    let mut i: usize = 0;
    while i < s.len()
        invariant
            i <= s.len(),
            p@ == pat@,
            q@ == rep@,
            p@.len() > 0,
            replace_all(s@, pat@, rep@) == out@ + replace_from(s@, pat@, rep@, i as int),
        decreases s.len() - i,
    {
        if starts_with_at_exec(s, i, &p) {
            extend_chars(&mut out, &q);
            i = i + p.len();
        } else {
            out.push(s[i]);
            i = i + 1;
        }
    }
    assert(replace_from(s@, pat@, rep@, i as int) =~= Seq::<char>::empty());
    out
}

/// A character that can continue a shell parameter name: an ASCII letter,
/// digit or `_`, or any character outside ASCII (which the shell may take
/// as a letter).
pub open spec fn is_name_char(c: char) -> bool {
    crate::text::is_ascii_alnum(c) || c == '_' || (c as u32) >= 0x80
}

/// `s` with every reference `var` (such as `$HOME`) from index `i` on
/// replaced by `rep`, left to right, but only where `var` is the whole
/// parameter name: the character after it does not continue a name.
pub open spec fn replace_var_from(s: Seq<char>, var: Seq<char>, rep: Seq<char>, i: int) -> Seq<char>
    decreases s.len() - i,
{
    if i < 0 || i >= s.len() {
        Seq::empty()
    } else if var.len() > 0 && starts_with_at(s, i, var) && (i + var.len() >= s.len()
        || !is_name_char(s[i + var.len()])) {
        rep + replace_var_from(s, var, rep, i + var.len())
    } else {
        seq![s[i]] + replace_var_from(s, var, rep, i + 1)
    }
}

pub open spec fn replace_var(s: Seq<char>, var: Seq<char>, rep: Seq<char>) -> Seq<char> {
    replace_var_from(s, var, rep, 0)
}

fn replace_var_exec(s: &Vec<char>, var: &str, rep: &str) -> (r: Vec<char>)
    requires
        var@.len() > 0,
    ensures
        r@ == replace_var(s@, var@, rep@),
{
    let p = chars_of(var);
    let q = chars_of(rep);
    let mut out: Vec<char> = Vec::new();
    let mut i: usize = 0;
    while i < s.len()
        invariant
            i <= s.len(),
            p@ == var@,
            q@ == rep@,
            p@.len() > 0,
            replace_var(s@, var@, rep@) == out@ + replace_var_from(s@, var@, rep@, i as int),
        decreases s.len() - i,
    {
        let whole = starts_with_at_exec(s, i, &p) && (i + p.len() >= s.len() || {
            let c = s[i + p.len()];
            !(('a' <= c && c <= 'z') || ('A' <= c && c <= 'Z') || ('0' <= c && c <= '9') || c == '_'
                || (c as u32) >= 0x80)
        });
        if whole {
            extend_chars(&mut out, &q);
            i = i + p.len();
        } else {
            out.push(s[i]);
            i = i + 1;
        }
    }
    assert(replace_var_from(s@, var@, rep@, i as int) =~= Seq::<char>::empty());
    out
}

/// `${HOME}`, then `$HOME` as a whole name, then `${ZSH}`, then `$ZSH` as a
/// whole name, and a leading `~` replaced, in that order. A longer name
/// such as `$HOMEBREW_PREFIX` or `$ZSH_CUSTOM` is left as it is (and so
/// refused by `expand_result`).
pub open spec fn expanded(s: Seq<char>, home: Seq<char>, zsh: Seq<char>) -> Seq<char> {
    let v = replace_var(
        replace_all(replace_var(replace_all(s, "${HOME}"@, home), "$HOME"@, home), "${ZSH}"@, zsh),
        "$ZSH"@,
        zsh,
    );
    if v == seq!['~'] {
        home
    } else if v.len() >= 2 && v[0] == '~' && v[1] == '/' {
        home + seq!['/'] + v.subrange(2, v.len() as int)
    } else {
        v
    }
}

/// A path separator on Windows: `\` or `/`.
pub open spec fn is_separator(c: char) -> bool {
    c == '\\' || c == '/'
}

/// Where the first Windows separator at or after `i` stands; the length when
/// there is none.
pub open spec fn find_separator(s: Seq<char>, i: int) -> int
    decreases s.len() - i,
{
    if i < 0 || i >= s.len() {
        s.len() as int
    } else if is_separator(s[i]) {
        i
    } else {
        find_separator(s, i + 1)
    }
}

proof fn lemma_find_separator_bounds(s: Seq<char>, i: int)
    requires
        0 <= i <= s.len(),
    ensures
        i <= find_separator(s, i) <= s.len(),
        find_separator(s, i) < s.len() ==> is_separator(s[find_separator(s, i)]),
        forall|k: int| i <= k < find_separator(s, i) ==> !is_separator(#[trigger] s[k]),
    decreases s.len() - i,
{
    if i < s.len() && !is_separator(s[i]) {
        lemma_find_separator_bounds(s, i + 1);
    }
}

/// Whether `p` is absolute in the sense of `Path::is_absolute`. On Unix: it
/// starts with `/`. On Windows: it has a prefix and a root, that is a drive
/// letter, `:` and a separator (`C:\x`), or one of the prefixes that carry
/// their root: verbatim `\\?\`, device `\\.\`, or UNC
/// `\\server\share` (either separator outside the verbatim form).
pub open spec fn is_absolute_path(p: Seq<char>, windows: bool) -> bool {
    if !windows {
        p.len() > 0 && p[0] == '/'
    } else if p.len() >= 2 && is_separator(p[0]) && is_separator(p[1]) {
        ||| (p.len() >= 4 && p[0] == '\\' && p[1] == '\\' && p[2] == '?' && p[3] == '\\')
        ||| (p.len() >= 4 && p[2] == '.' && is_separator(p[3]))
        ||| {
            let k = find_separator(p, 2);
            &&& 2 < k
            &&& k + 1 < p.len()
            &&& !is_separator(p[k + 1])
        }
    } else {
        &&& p.len() >= 3
        &&& (('a' <= p[0] && p[0] <= 'z') || ('A' <= p[0] && p[0] <= 'Z'))
        &&& p[1] == ':'
        &&& is_separator(p[2])
    }
}

fn separator(c: char) -> (r: bool)
    ensures
        r == is_separator(c),
{
    c == '\\' || c == '/'
}

/// See `is_absolute_path`.
pub fn absolute_path(p: &str, windows: bool) -> (r: bool)
    ensures
        r == is_absolute_path(p@, windows),
{
    let v = chars_of(p);
    if !windows {
        return v.len() > 0 && v[0] == '/';
    }
    let n = v.len();
    if n >= 2 && separator(v[0]) && separator(v[1]) {
        if n >= 4 && v[0] == '\\' && v[1] == '\\' && v[2] == '?' && v[3] == '\\' {
            return true;
        }
        if n >= 4 && v[2] == '.' && separator(v[3]) {
            return true;
        }
        proof {
            lemma_find_separator_bounds(v@, 2);
        }
        let mut k: usize = 2;
        while k < n && !separator(v[k])
            invariant
                2 <= k <= n,
                n == v@.len(),
                find_separator(v@, 2) == find_separator(v@, k as int),
            decreases n - k,
        {
            k += 1;
        }
        2 < k && k < n - 1 && !separator(v[k + 1])
    } else {
        n >= 3 && (('a' <= v[0] && v[0] <= 'z') || ('A' <= v[0] && v[0] <= 'Z')) && v[1] == ':'
            && separator(v[2])
    }
}

/// What `Environment::expand` gives: the expanded path, refused when it
/// still holds `$`, a backquote or a newline, or is not absolute on the
/// platform (`windows`; see `is_absolute_path`).
pub open spec fn expand_result(s: Seq<char>, home: Seq<char>, zsh: Seq<char>, windows: bool) -> Result<
    Seq<char>,
    Seq<char>,
> {
    let v = expanded(s, home, zsh);
    if exists|i: int| 0 <= i < v.len() && (v[i] == '$' || v[i] == '`' || v[i] == '\n') {
        Err(
            "Dynamic ZSH/ZSH_CUSTOM path needs manual configuration; no shell evaluation is performed"@,
        )
    } else if !is_absolute_path(v, windows) {
        Err("ZSH paths must be absolute"@)
    } else {
        Ok(v)
    }
}

/// What `Environment::shell_path` gives for the WSL distribution `wsl`.
pub open spec fn shell_path_of(wsl: Option<String>, p: Seq<char>) -> Result<Seq<char>, Seq<char>> {
    match wsl {
        None => Ok(p),
        Some(d) => {
            let prefix = "\\\\wsl.localhost\\"@ + d@ + "\\"@;
            if starts_with_at(p, 0, prefix) {
                Ok(seq!['/'] + replace_all(p.subrange(prefix.len() as int, p.len() as int), "\\"@, "/"@))
            } else {
                Err("Path is outside the selected WSL distribution"@)
            }
        },
    }
}

/// Where the shell configuration and the Oh My Zsh checkout live.
#[derive(Clone, Debug)]
pub struct Environment {
    pub home: String,
    pub config: String,
    pub data: String,
    pub zsh: String,
    pub custom: String,
    pub label: String,
    pub wsl: Option<String>,
}

/// What resolving the layout from a `.zshrc` does to `(zsh, custom)`: a
/// literal `ZSH` moves the checkout and the custom directory under it, a
/// literal `ZSH_CUSTOM` moves the custom directory. `Err` carries the first
/// refusal, with the values as they stood then.
pub open spec fn layout_result(
    src: Seq<char>,
    home: Seq<char>,
    zsh: Seq<char>,
    custom: Seq<char>,
    windows: bool,
) -> (Seq<char>, Seq<char>, Option<Seq<char>>) {
    match scalar_spec(src, "ZSH"@) {
        Err(e) => (zsh, custom, Some(e)),
        Ok(p) => {
            let z = match p {
                Some(t) => expand_result(t.2, home, zsh, windows),
                None => Ok(zsh),
            };
            match z {
                Err(e) => (zsh, custom, Some(e)),
                Ok(z) => {
                    let c = path_join(z, "custom"@);
                    match scalar_spec(src, "ZSH_CUSTOM"@) {
                        Err(e) => (z, c, Some(e)),
                        Ok(None) => (z, c, None),
                        Ok(Some(t)) => match expand_result(t.2, home, z, windows) {
                            Err(e) => (z, c, Some(e)),
                            Ok(x) => (z, x, None),
                        },
                    }
                },
            }
        },
    }
}

impl Environment {
    /// Whether paths follow the Windows rules: under WSL, or where the
    /// platform label is `windows`.
    pub open spec fn windows(&self) -> bool {
        self.wsl is Some || self.label@ == "windows"@
    }

    /// See `windows`.
    pub fn is_windows(&self) -> (r: bool)
        ensures
            r == self.windows(),
    {
        self.wsl.is_some() || str_eq(self.label.as_str(), "windows")
    }

    /// The default layout under `home`: `~/.zshrc`, `~/.ohmyzsh-gui`,
    /// `~/.oh-my-zsh` and its `custom` directory.
    pub open spec fn default_layout(&self, home: Seq<char>, label: Seq<char>) -> bool {
        &&& self.home@ == home
        &&& self.config@ == path_join(home, ".zshrc"@)
        &&& self.data@ == path_join(home, ".ohmyzsh-gui"@)
        &&& self.label@ == label
        &&& self.wsl is None
    }

    /// The layout at `home`, resolved from the `.zshrc` text when there is
    /// one (`source` is `None` when the file cannot be read).
    pub fn at(home: String, label: String, source: Option<String>) -> (r: Result<Environment, String>)
        ensures
            match source {
                None => r matches Ok(e) && e.default_layout(home@, label@) && e.zsh@ == path_join(
                    home@,
                    ".oh-my-zsh"@,
                ) && e.custom@ == path_join(home@, ".oh-my-zsh/custom"@),
                Some(src) => {
                    let l = layout_result(
                        src@,
                        home@,
                        path_join(home@, ".oh-my-zsh"@),
                        path_join(home@, ".oh-my-zsh/custom"@),
                        label@ == "windows"@,
                    );
                    match l.2 {
                        Some(e) => r matches Err(x) && x@ == e,
                        None => r matches Ok(env) && env.default_layout(home@, label@) && env.zsh@
                            == l.0 && env.custom@ == l.1,
                    }
                },
            },
    {
        let mut s = Environment {
            config: join(home.as_str(), ".zshrc"),
            data: join(home.as_str(), ".ohmyzsh-gui"),
            zsh: join(home.as_str(), ".oh-my-zsh"),
            custom: join(home.as_str(), ".oh-my-zsh/custom"),
            label,
            wsl: None,
            home,
        };
        match s.resolve_layout(source) {
            Ok(()) => Ok(s),
            Err(e) => Err(e),
        }
    }

    /// Expands `$HOME`, `$ZSH` and `~` in a path taken from `.zshrc`; no shell
    /// is run, so anything still dynamic is refused (see `expand_result`).
    pub fn expand(&self, s: &str) -> (r: Result<String, String>)
        ensures
            match r {
                Ok(p) => expand_result(s@, self.home@, self.zsh@, self.windows()) == Ok::<
                    Seq<char>,
                    Seq<char>,
                >(p@),
                Err(e) => expand_result(s@, self.home@, self.zsh@, self.windows()) == Err::<
                    Seq<char>,
                    Seq<char>,
                >(e@),
            },
    {
        let v = chars_of(s);
        proof {
            reveal_strlit("${HOME}");
            reveal_strlit("$HOME");
            reveal_strlit("${ZSH}");
            reveal_strlit("$ZSH");
        }
        let v = replace_exec(&v, "${HOME}", self.home.as_str());
        let v = replace_var_exec(&v, "$HOME", self.home.as_str());
        let v = replace_exec(&v, "${ZSH}", self.zsh.as_str());
        let w = replace_var_exec(&v, "$ZSH", self.zsh.as_str());
        let ghost e = expanded(s@, self.home@, self.zsh@);
        let v = if w.len() == 1 && w[0] == '~' {
            assert(w@ =~= seq!['~']);
            chars_of(self.home.as_str())
        } else if w.len() >= 2 && w[0] == '~' && w[1] == '/' {
            assert(w@ != seq!['~']) by {
                if w@ =~= seq!['~'] {
                    assert(w@.len() == 1);
                }
            }
            let mut h = chars_of(self.home.as_str());
            h.push('/');
            let rest = slice_chars(&w, 2, w.len());
            extend_chars(&mut h, &rest);
            h
        } else {
            assert(w@ != seq!['~']) by {
                if w@ =~= seq!['~'] {
                    assert(w@.len() == 1 && w@[0] == '~');
                }
            }
            w
        };
        assert(v@ == e);
        let mut i: usize = 0;
        while i < v.len()
            invariant
                i <= v.len(),
                v@ == e,
                e == expanded(s@, self.home@, self.zsh@),
                forall|k: int| 0 <= k < i ==> !(v@[k] == '$' || v@[k] == '`' || v@[k] == '\n'),
            decreases v.len() - i,
        {
            if v[i] == '$' || v[i] == '`' || v[i] == '\n' {
                assert(0 <= i < v@.len() && (v@[i as int] == '$' || v@[i as int] == '`' || v@[i as int] == '\n'));
                return Err(
                    owned(
                        "Dynamic ZSH/ZSH_CUSTOM path needs manual configuration; no shell evaluation is performed",
                    ),
                );
            }
            i += 1;
        }
        let out = string_of(&v);
        if !absolute_path(out.as_str(), self.is_windows()) {
            return Err(owned("ZSH paths must be absolute"));
        }
        Ok(out)
    }

    /// Moves `zsh` and `custom` to what the `.zshrc` text assigns (see
    /// `layout_result`); `source` is `None` when there is no readable file,
    /// and then nothing changes.
    pub fn resolve_layout(&mut self, source: Option<String>) -> (r: Result<(), String>)
        ensures
            final(self).home == old(self).home,
            final(self).config == old(self).config,
            final(self).data == old(self).data,
            final(self).label == old(self).label,
            final(self).wsl == old(self).wsl,
            match source {
                None => r is Ok && final(self).zsh == old(self).zsh && final(self).custom == old(
                    self,
                ).custom,
                Some(src) => {
                    let l = layout_result(
                        src@,
                        old(self).home@,
                        old(self).zsh@,
                        old(self).custom@,
                        old(self).windows(),
                    );
                    &&& final(self).zsh@ == l.0
                    &&& final(self).custom@ == l.1
                    &&& match l.2 {
                        Some(e) => r matches Err(x) && x@ == e,
                        None => r is Ok,
                    }
                },
            },
    {
        let s = match source {
            Some(s) => s,
            None => {
                return Ok(());
            },
        };
        match literal_path(s.as_str(), "ZSH") {
            Err(e) => {
                return Err(e);
            },
            Ok(Some(p)) => {
                match self.expand(p.as_str()) {
                    Ok(z) => {
                        self.zsh = z;
                    },
                    Err(e) => {
                        return Err(e);
                    },
                }
            },
            Ok(None) => {},
        }
        self.custom = join(self.zsh.as_str(), "custom");
        match literal_path(s.as_str(), "ZSH_CUSTOM") {
            Err(e) => Err(e),
            Ok(Some(p)) => {
                match self.expand(p.as_str()) {
                    Ok(c) => {
                        self.custom = c;
                        Ok(())
                    },
                    Err(e) => Err(e),
                }
            },
            Ok(None) => Ok(()),
        }
    }

    /// The path as the shell sees it: under WSL, the `\\wsl.localhost\<distro>\`
    /// prefix becomes `/` and backslashes become slashes; elsewhere the path is
    /// unchanged.
    pub fn shell_path(&self, p: &str) -> (r: Result<String, String>)
        ensures
            match r {
                Ok(x) => shell_path_of(self.wsl, p@) == Ok::<Seq<char>, Seq<char>>(x@),
                Err(e) => shell_path_of(self.wsl, p@) == Err::<Seq<char>, Seq<char>>(e@),
            },
            match self.wsl {
                None => r matches Ok(x) && x@ == p@,
                Some(d) => {
                    let prefix = "\\\\wsl.localhost\\"@ + d@ + "\\"@;
                    if starts_with_at(p@, 0, prefix) {
                        r matches Ok(x) && x@ == seq!['/'] + replace_all(
                            p@.subrange(prefix.len() as int, p@.len() as int),
                            "\\"@,
                            "/"@,
                        )
                    } else {
                        r matches Err(e) && e@ == "Path is outside the selected WSL distribution"@
                    }
                },
            },
    {
        match &self.wsl {
            None => Ok(owned(p)),
            Some(d) => {
                let mut prefix = chars_of("\\\\wsl.localhost\\");
                extend_str(&mut prefix, d.as_str());
                extend_str(&mut prefix, "\\");
                let v = chars_of(p);
                if !starts_with_at_exec(&v, 0, &prefix) {
                    return Err(owned("Path is outside the selected WSL distribution"));
                }
                let rest = slice_chars(&v, prefix.len(), v.len());
                proof {
                    reveal_strlit("\\");
                }
                let r = replace_exec(&rest, "\\", "/");
                let mut out: Vec<char> = Vec::new();
                out.push('/');
                extend_chars(&mut out, &r);
                Ok(string_of(&out))
            },
        }
    }

    /// `custom/<kind>/<name>` for a valid name.
    pub fn managed_path(&self, kind: &str, name: &str) -> (r: Result<String, String>)
        ensures
            is_component(name@) ==> (r matches Ok(p) && p@ == path_join(
                path_join(self.custom@, kind@),
                name@,
            )),
            !is_component(name@) ==> (r matches Err(e) && e@ == "Invalid plugin directory name"@),
    {
        if !component(name) {
            return Err(owned("Invalid plugin directory name"));
        }
        let k = join(self.custom.as_str(), kind);
        Ok(join(k.as_str(), name))
    }

    /// The checkout `custom/<kind>/<name>` that may be changed: a valid name
    /// whose path is not a link (`is_link` tells whether that path is a
    /// symbolic link); a linked checkout is read-only.
    pub fn managed_checkout(&self, kind: &str, name: &str, is_link: bool) -> (r: Result<String, String>)
        ensures
            !is_component(name@) ==> (r matches Err(e) && e@ == "Invalid plugin directory name"@),
            is_component(name@) && is_link ==> (r matches Err(e) && e@
                == "Linked plugin checkout is read-only"@),
            is_component(name@) && !is_link ==> (r matches Ok(p) && p@ == path_join(
                path_join(self.custom@, kind@),
                name@,
            )),
    {
        let p = match self.managed_path(kind, name) {
            Ok(p) => p,
            Err(e) => {
                return Err(e);
            },
        };
        if is_link {
            return Err(owned("Linked plugin checkout is read-only"));
        }
        Ok(p)
    }

    /// Where a custom plugin named `name` is checked out.
    pub fn plugin_path(&self, name: &str) -> (r: Result<String, String>)
        ensures
            is_component(name@) ==> (r matches Ok(p) && p@ == path_join(
                path_join(self.custom@, "plugins"@),
                name@,
            )),
            !is_component(name@) ==> (r matches Err(e) && e@ == "Invalid plugin directory name"@),
    {
        self.managed_path("plugins", name)
    }

    /// Where a custom theme named `name` is checked out.
    pub fn theme_path(&self, name: &str) -> (r: Result<String, String>)
        ensures
            is_component(name@) ==> (r matches Ok(p) && p@ == path_join(
                path_join(self.custom@, "themes"@),
                name@,
            )),
            !is_component(name@) ==> (r matches Err(e) && e@ == "Invalid plugin directory name"@),
    {
        self.managed_path("themes", name)
    }

    /// Where a removed checkout is kept: `<data>/quarantine/<name>-<id>`.
    pub fn quarantine_path(&self, name: &str, id: &str) -> (r: String)
        ensures
            r@ == path_join(path_join(self.data@, "quarantine"@), name@ + "-"@ + id@),
    {
        let d = join(self.data.as_str(), "quarantine");
        let mut n = chars_of(name);
        extend_str(&mut n, "-");
        extend_str(&mut n, id);
        let leaf = string_of(&n);
        join(d.as_str(), leaf.as_str())
    }
}

/// What a finished command gives: its trimmed output when it succeeded,
/// else the first 1500 characters of its trimmed error output.
pub fn command_output(success: bool, stdout: &str, stderr: &str) -> (r: Result<String, String>)
    ensures
        success ==> (r matches Ok(x) && x@ == trim(stdout@)),
        !success ==> (r matches Err(e) && e@ == if trim(stderr@).len() <= 1500 {
            trim(stderr@)
        } else {
            trim(stderr@).subrange(0, 1500)
        }),
{
    if success {
        let v = chars_of(stdout);
        let t = trim_chars(&v);
        Ok(string_of(&t))
    } else {
        let v = chars_of(stderr);
        let t = trim_chars(&v);
        if t.len() <= 1500 {
            Err(string_of(&t))
        } else {
            let c = slice_chars(&t, 0, 1500);
            Err(string_of(&c))
        }
    }
}


/// The configuration every Git command runs with: hooks from an empty
/// directory, no file-system monitor, no credential helper, no `file://`
/// transport, and a stalled transfer aborted after 30 seconds.
pub open spec fn git_config(hooks: Seq<char>) -> Seq<Seq<char>> {
    seq![
        "-c"@,
        "core.hooksPath="@ + hooks,
        "-c"@,
        "core.fsmonitor=false"@,
        "-c"@,
        "credential.helper="@,
        "-c"@,
        "protocol.file.allow=never"@,
        "-c"@,
        "http.lowSpeedLimit=1"@,
        "-c"@,
        "http.lowSpeedTime=30"@
    ]
}

impl Environment {
    /// The program that runs `tool`, with the arguments that come before the
    /// tool's own: inside the WSL distribution when there is one; on macOS
    /// (`macos`) zsh is `/bin/zsh`.
    pub fn program(&self, tool: &str, macos: bool) -> (r: (String, Vec<String>))
        ensures
            match self.wsl {
                Some(d) => r.0@ == "wsl.exe"@ && crate::config::strings_model(r.1@) == seq![
                    "--distribution"@,
                    d@,
                    "--exec"@,
                    tool@,
                ],
                None => r.1@.len() == 0 && r.0@ == if tool@ == "zsh"@ && macos {
                    "/bin/zsh"@
                } else {
                    tool@
                },
            },
    {
        match &self.wsl {
            Some(d) => {
                let mut a: Vec<String> = Vec::new();
                a.push(owned("--distribution"));
                a.push(d.clone());
                a.push(owned("--exec"));
                a.push(owned(tool));
                assert(crate::config::strings_model(a@) =~= seq![
                    "--distribution"@,
                    d@,
                    "--exec"@,
                    tool@,
                ]);
                (owned("wsl.exe"), a)
            },
            None => {
                let p = if crate::text::str_eq(tool, "zsh") && macos {
                    owned("/bin/zsh")
                } else {
                    owned(tool)
                };
                (p, Vec::new())
            },
        }
    }

    /// The arguments of a Git command: the fixed configuration (see
    /// `git_config`) with the hooks directory as the shell sees it, then
    /// `-C <dir>` when it runs in a checkout, then `args`.
    pub fn git_args(&self, hooks: &str, dir: Option<String>, args: &Vec<String>) -> (r: Result<
        Vec<String>,
        String,
    >)
        ensures
            match shell_path_of(self.wsl, hooks@) {
                Err(e) => r matches Err(x) && x@ == e,
                Ok(h) => match dir {
                    None => r matches Ok(v) && crate::config::strings_model(v@) == git_config(h)
                        + crate::config::strings_model(args@),
                    Some(d) => match shell_path_of(self.wsl, d@) {
                        Err(e) => r matches Err(x) && x@ == e,
                        Ok(x) => r matches Ok(v) && crate::config::strings_model(v@) == git_config(h)
                            + seq!["-C"@, x] + crate::config::strings_model(args@),
                    },
                },
            },
    {
        let h = match self.shell_path(hooks) {
            Ok(h) => h,
            Err(e) => {
                return Err(e);
            },
        };
        let mut v: Vec<String> = Vec::new();
        v.push(owned("-c"));
        v.push(concat("core.hooksPath=", h.as_str()));
        v.push(owned("-c"));
        v.push(owned("core.fsmonitor=false"));
        v.push(owned("-c"));
        v.push(owned("credential.helper="));
        v.push(owned("-c"));
        v.push(owned("protocol.file.allow=never"));
        v.push(owned("-c"));
        v.push(owned("http.lowSpeedLimit=1"));
        v.push(owned("-c"));
        v.push(owned("http.lowSpeedTime=30"));
        assert(crate::config::strings_model(v@) =~= git_config(h@));
        match dir {
            Some(d) => {
                let x = match self.shell_path(d.as_str()) {
                    Ok(x) => x,
                    Err(e) => {
                        return Err(e);
                    },
                };
                let ghost before = crate::config::strings_model(v@);
                v.push(owned("-C"));
                v.push(x);
                assert(crate::config::strings_model(v@) =~= before + seq!["-C"@, x@]);
            },
            None => {},
        }
        let ghost head = crate::config::strings_model(v@);
        let mut i: usize = 0;
        while i < args.len()
            invariant
                i <= args@.len(),
                crate::config::strings_model(v@) == head + crate::config::strings_model(args@).take(i as int),
            decreases args.len() - i,
        {
            let ghost before = crate::config::strings_model(v@);
            v.push(args[i].clone());
            assert(crate::config::strings_model(v@) =~= before.push(args@[i as int]@));
            assert(crate::config::strings_model(args@).take(i + 1) =~= crate::config::strings_model(args@).take(i as int).push(args@[i as int]@));
            i += 1;
        }
        assert(crate::config::strings_model(args@).take(args@.len() as int) =~= crate::config::strings_model(args@));
        Ok(v)
    }

    /// Where the backup of a configuration write with id `id` goes:
    /// `<data>/backups/<id>.zshrc`.
    pub fn backup_file(&self, id: &str) -> (r: String)
        ensures
            r@ == path_join(path_join(self.data@, "backups"@), id@ + ".zshrc"@),
    {
        let d = join(self.data.as_str(), "backups");
        let f = concat(id, ".zshrc");
        join(d.as_str(), f.as_str())
    }
}

/// What the `zsh -n` check of a proposed configuration says: zsh could not
/// be started, it accepted the text, or it refused it with its diagnostic.
pub fn syntax_verdict(started: bool, success: bool, stderr: &str) -> (r: Result<(), String>)
    ensures
        !started ==> (r matches Err(e) && e@ == "zsh is unavailable; configuration was not changed"@),
        started && success ==> r is Ok,
        started && !success ==> (r matches Err(e) && e@ == "zsh syntax check: "@ + trim(stderr@)),
{
    if !started {
        return Err(owned("zsh is unavailable; configuration was not changed"));
    }
    if success {
        return Ok(());
    }
    let v = chars_of(stderr);
    let t = trim_chars(&v);
    let mut m = chars_of("zsh syntax check: ");
    extend_chars(&mut m, &t);
    Err(string_of(&m))
}

/// Which stage of a configuration write a text check belongs to.
pub enum WriteStage {
    /// Before anything is written: the file must still be what was previewed.
    Before,
    /// Just before the replacement: the file and its target must be unchanged.
    Replace,
    /// After the replacement: the file must read back as written.
    Readback,
}

/// A configuration write goes on only while the file holds `want` (and,
/// just before the replacement, still resolves to the same target).
pub fn write_check(stage: WriteStage, current: &str, want: &str, same_target: bool) -> (r: Result<(), String>)
    ensures
        match stage {
            WriteStage::Before => if current@ == want@ {
                r is Ok
            } else {
                r matches Err(e) && e@ == ".zshrc changed since preview. Reload and preview again."@
            },
            WriteStage::Replace => if current@ == want@ && same_target {
                r is Ok
            } else {
                r matches Err(e) && e@ == "Config changed during Apply; original retained"@
            },
            WriteStage::Readback => if current@ == want@ {
                r is Ok
            } else {
                r matches Err(e) && e@ == "Write readback mismatch"@
            },
        },
{
    let same = crate::text::str_eq(current, want);
    match stage {
        WriteStage::Before => if same {
            Ok(())
        } else {
            Err(owned(".zshrc changed since preview. Reload and preview again."))
        },
        WriteStage::Replace => if same && same_target {
            Ok(())
        } else {
            Err(owned("Config changed during Apply; original retained"))
        },
        WriteStage::Readback => if same {
            Ok(())
        } else {
            Err(owned("Write readback mismatch"))
        },
    }
}

/// A checkout can be managed only when its `.git` is a real directory.
pub fn checkout_check(git_is_dir: bool, git_is_link: bool) -> (r: Result<(), String>)
    ensures
        git_is_dir && !git_is_link ==> r is Ok,
        !(git_is_dir && !git_is_link) ==> (r matches Err(e) && e@
            == "Only normal Git checkouts can be managed"@),
{
    if git_is_dir && !git_is_link {
        Ok(())
    } else {
        Err(owned("Only normal Git checkouts can be managed"))
    }
}

/// A checkout can be managed only without local changes (`git status
/// --porcelain` prints nothing) and without custom Git filters.
pub fn clean_check(status: &str, has_filters: bool) -> (r: Result<(), String>)
    ensures
        status@.len() > 0 ==> (r matches Err(e) && e@
            == "Checkout has local changes; commit or move them before applying"@),
        status@.len() == 0 && has_filters ==> (r matches Err(e) && e@
            == "Checkout uses custom Git filters; manual review required"@),
        status@.len() == 0 && !has_filters ==> r is Ok,
{
    let v = chars_of(status);
    if v.len() > 0 {
        return Err(owned("Checkout has local changes; commit or move them before applying"));
    }
    if has_filters {
        return Err(owned("Checkout uses custom Git filters; manual review required"));
    }
    Ok(())
}

/// `$ZSH` in `ZSH_CUSTOM` names the checkout that `ZSH` set: when the
/// layout resolves without a refusal and `ZSH_CUSTOM` has a literal value,
/// the custom directory is that value expanded against the resolved
/// checkout, and the checkout is the expanded `ZSH` value (or the default
/// when there is none).
pub proof fn custom_follows_the_resolved_checkout(
    src: Seq<char>,
    home: Seq<char>,
    zsh: Seq<char>,
    custom: Seq<char>,
    windows: bool,
    t: (int, int, Seq<char>),
)
    requires
        layout_result(src, home, zsh, custom, windows).2 is None,
        scalar_spec(src, "ZSH_CUSTOM"@) == Ok::<Option<(int, int, Seq<char>)>, Seq<char>>(Some(t)),
    ensures
        ({
            let l = layout_result(src, home, zsh, custom, windows);
            &&& expand_result(t.2, home, l.0, windows) == Ok::<Seq<char>, Seq<char>>(l.1)
            &&& match scalar_spec(src, "ZSH"@) {
                Ok(Some(z)) => expand_result(z.2, home, zsh, windows) == Ok::<Seq<char>, Seq<char>>(l.0),
                _ => l.0 == zsh,
            }
        }),
{
}

} // verus!


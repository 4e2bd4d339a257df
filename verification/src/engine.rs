//! The operations of the manager: previews that are held until applied or
//! cancelled, the journal of applied operations and how they are undone, and
//! the rules that decide what an operation does. The application performs
//! the file-system, Git and network work that these decisions call for.
use crate::config::{
    component, diff, diff_text, edit_names, edit_text, is_component, lemma_edit_names,
    lemma_edit_text, parse_warnings, parsed_plugins, parsed_theme, strings_model, Document, Values,
};
use crate::github::{
    full_sha, is_sha, repo_parse, strip_all_suffix, strip_all_suffix_exec, text_or, Repo,
    Search,
};
use crate::system::{join, path_join, Environment};
use crate::text::{
    chars_of, concat, extend_chars, extend_str, find_char, find_char_at, lemma_find_char_bounds, owned,
    slice_chars, starts_with_at, starts_with_at_exec, str_eq, string_of, trim, trim_chars,
    byte_boundary, byte_prefix, prefix_bytes, text_less, text_lt, lemma_text_lt_total,
    lemma_text_lt_transitive, lemma_text_lt_asymmetric,
};
use vstd::prelude::*;

verus! {

/// A directory of the official plugin catalog with the first line of its README.
#[derive(Debug)]
pub struct CatalogItem {
    pub name: String,
    pub summary: String,
}

impl Clone for CatalogItem {
    fn clone(&self) -> (r: CatalogItem)
        ensures
            r == *self,
    {
        CatalogItem { name: self.name.clone(), summary: self.summary.clone() }
    }
}

/// A checkout under the custom directory, with where it came from.
#[derive(Clone, Debug)]
pub struct InstalledPlugin {
    pub name: String,
    pub repo: Option<Repo>,
    pub current_sha: Option<String>,
    pub loadable: bool,
}

/// What was found of one installed checkout: the repository it came
/// from, the commit it is at when it is clean, and whether it is a loadable
/// plugin.
#[derive(Debug)]
pub struct CheckoutFacts {
    pub repo: Option<Repo>,
    pub current_sha: Option<String>,
    pub loadable: bool,
}

/// What the application shows of the current configuration.
#[derive(Clone, Debug)]
pub struct Snapshot {
    pub path: String,
    pub source: String,
    pub values: Values,
    pub warnings: Vec<String>,
    pub zsh_available: bool,
    pub platform: String,
    pub plugin_root: String,
    pub installed_custom: Vec<String>,
    pub installed_custom_info: Vec<InstalledPlugin>,
    pub official_plugins: Vec<CatalogItem>,
    pub themes: Vec<String>,
}

/// A planned change, shown before it is applied.
#[derive(Clone, Debug)]
pub struct Preview {
    pub id: String,
    pub title: String,
    pub detail: String,
    pub diff: String,
    pub expected_source: String,
    pub proposed_source: String,
    pub target_sha: Option<String>,
    pub files: Vec<String>,
    pub can_apply: bool,
}

/// The outcome of an applied or undone operation.
#[derive(Clone, Debug)]
pub struct Applied {
    pub id: String,
    pub status: String,
    pub backup: Option<String>,
    pub commit: Option<String>,
    pub undo_available: bool,
}

/// One entry of the operation journal.
#[derive(Debug)]
pub struct History {
    pub id: String,
    pub at: u64,
    pub operation: String,
    pub status: String,
    pub files: Vec<String>,
    pub backup: Option<String>,
    pub undo_available: bool,
    pub repo: Option<Repo>,
    pub commit: Option<String>,
    pub previous_commit: Option<String>,
    pub error: Option<String>,
}

/// Which tools the machine has and where the configuration is.
#[derive(Clone, Debug)]
pub struct Capability {
    pub zsh: bool,
    pub git: bool,
    pub path: String,
    pub platform: String,
    pub warnings: Vec<String>,
}

/// A plugin as the inventory lists it.
#[derive(Clone, Debug)]
pub struct PluginView {
    pub name: String,
    pub kind: String,
    pub repo: Option<Repo>,
    pub enabled: bool,
    pub installed: bool,
    pub current_sha: Option<String>,
    pub available_sha: Option<String>,
    pub summary: String,
}

/// A checkout whose upstream has moved on.
#[derive(Clone, Debug)]
pub struct UpdateView {
    pub name: String,
    pub repo: Repo,
    pub current_sha: String,
    pub available_sha: String,
    pub summary: String,
}

/// The plugins with the machine's capabilities.
#[derive(Clone, Debug)]
pub struct Inventory {
    pub plugins: Vec<PluginView>,
    pub capabilities: Capability,
}

/// A request from the user interface.
#[derive(Clone, Debug)]
pub enum Request {
    Read,
    Capability,
    PreviewConfig { theme: String, plugins: Vec<String>, expected_source: Option<String> },
    Apply { plan_id: String },
    Cancel { plan_id: String },
    Search { query: String },
    Readme { owner: String, repository: String },
    SetToken { token: String },
    TokenStatus,
    PreviewPlugin {
        operation: String,
        owner: String,
        repository: String,
        requested_sha: Option<String>,
    },
    Undo { history_id: String },
    History,
    Updates,
    RestoreBackup { path: String },
    DeleteBackup { path: String },
    PluginReadme { name: String },
    OpenUrl { url: String },
    OpenTerminal,
}

/// The answer to a request: the part that the request asked for.
#[derive(Clone, Debug)]
pub struct Response {
    pub snapshot: Option<Snapshot>,
    pub preview: Option<Preview>,
    pub applied: Option<Applied>,
    pub inventory: Option<Inventory>,
    pub search: Option<Search>,
    pub capability: Option<Capability>,
    pub history: Option<Vec<History>>,
    pub updates: Option<Vec<UpdateView>>,
    pub message: Option<String>,
}

/// A response with nothing in it.
pub open spec fn is_blank(r: Response) -> bool {
    &&& r.snapshot is None
    &&& r.preview is None
    &&& r.applied is None
    &&& r.inventory is None
    &&& r.search is None
    &&& r.capability is None
    &&& r.history is None
    &&& r.updates is None
    &&& r.message is None
}

/// A response that carries only a message.
pub open spec fn carries_message(r: Response, m: Seq<char>) -> bool {
    &&& is_blank(Response { message: None, ..r })
    &&& r.message matches Some(x) && x@ == m
}

/// A response that carries only an outcome.
pub open spec fn carries_applied(r: Response, a: Applied) -> bool {
    &&& is_blank(Response { applied: None, ..r })
    &&& r.applied == Some(a)
}

/// A response that carries only a preview.
pub open spec fn carries_preview(r: Response) -> bool {
    &&& is_blank(Response { preview: None, ..r })
    &&& r.preview is Some
}

impl Response {
    /// A response with nothing in it.
    pub fn blank() -> (r: Response)
        ensures
            is_blank(r),
    {
        Response {
            snapshot: None,
            preview: None,
            applied: None,
            inventory: None,
            search: None,
            capability: None,
            history: None,
            updates: None,
            message: None,
        }
    }

    /// A response that carries only `m`.
    pub fn message(m: String) -> (r: Response)
        ensures
            carries_message(r, m@),
    {
        Response { message: Some(m), ..Response::blank() }
    }

    /// A response that carries only `a`.
    pub fn applied(a: Applied) -> (r: Response)
        ensures
            carries_applied(r, a),
    {
        Response { applied: Some(a), ..Response::blank() }
    }
}

/// What a preview will do when it is applied.
#[derive(Clone, Debug)]
pub struct Plan {
    pub operation: String,
    pub expected_source: Option<String>,
    pub proposed_source: Option<String>,
    pub repo: Option<Repo>,
    pub target: Option<String>,
}

/// The plans awaiting apply or cancel, by preview id; no id occurs twice.
pub struct Plans {
    entries: Vec<(String, Plan)>,
}

/// Some entry has id `k`.
pub open spec fn has_id(e: Seq<(String, Plan)>, k: Seq<char>) -> bool {
    exists|i: int| 0 <= i < e.len() && #[trigger] e[i].0@ == k
}

/// The index of an entry with id `k`.
pub open spec fn index_of(e: Seq<(String, Plan)>, k: Seq<char>) -> int {
    choose|i: int| 0 <= i < e.len() && #[trigger] e[i].0@ == k
}

/// No id occurs twice.
pub open spec fn ids_unique(e: Seq<(String, Plan)>) -> bool {
    forall|i: int, j: int| 0 <= i < j < e.len() ==> #[trigger] e[i].0@ != #[trigger] e[j].0@
}

/// The entries as a map from id to plan.
pub open spec fn entries_map(e: Seq<(String, Plan)>) -> Map<Seq<char>, Plan> {
    Map::new(|k: Seq<char>| has_id(e, k), |k: Seq<char>| e[index_of(e, k)].1)
}

proof fn lemma_index_of(e: Seq<(String, Plan)>, i: int)
    requires
        ids_unique(e),
        0 <= i < e.len(),
    ensures
        has_id(e, e[i].0@),
        index_of(e, e[i].0@) == i,
{
    let k = e[i].0@;
    assert(has_id(e, k));
    let j = index_of(e, k);
    if j < i {
        assert(e[j].0@ != e[i].0@);
    } else if j > i {
        assert(e[i].0@ != e[j].0@);
    }
}

impl View for Plans {
    type V = Map<Seq<char>, Plan>;

    closed spec fn view(&self) -> Map<Seq<char>, Plan> {
        entries_map(self.entries@)
    }
}

impl Plans {
    #[verifier::type_invariant]
    spec fn unique(self) -> bool {
        ids_unique(self.entries@)
    }

    /// No plans.
    pub fn new() -> (r: Plans)
        ensures
            r@ == Map::<Seq<char>, Plan>::empty(),
    {
        let r = Plans { entries: Vec::new() };
        assert(entries_map(r.entries@) =~= Map::<Seq<char>, Plan>::empty());
        r
    }

    fn find(e: &Vec<(String, Plan)>, id: &str) -> (r: Option<usize>)
        ensures
            match r {
                Some(i) => i < e@.len() && e@[i as int].0@ == id@,
                None => !has_id(e@, id@),
            },
    {
        let mut i: usize = 0;
        while i < e.len()
            invariant
                i <= e@.len(),
                forall|k: int| 0 <= k < i ==> e@[k].0@ != id@,
            decreases e.len() - i,
        {
            if str_eq(e[i].0.as_str(), id) {
                return Some(i);
            }
            i += 1;
        }
        None
    }

    /// Whether a plan with this id is held.
    pub fn contains(&self, id: &str) -> (r: bool)
        ensures
            r == self@.contains_key(id@),
    {
        match Self::find(&self.entries, id) {
            Some(_) => true,
            None => false,
        }
    }

    /// Holds `p` under `id`, replacing a plan held under the same id.
    pub fn insert(&mut self, id: String, p: Plan)
        ensures
            final(self)@ == old(self)@.insert(id@, p),
    {
        proof {
            use_type_invariant(&*self);
        }
        let mut e: Vec<(String, Plan)> = Vec::new();
        std::mem::swap(&mut e, &mut self.entries);
        let ghost old_e = e@;
        let ghost k = id@;
        match Self::find(&e, id.as_str()) {
            Some(i) => {
                e[i] = (id, p);
                proof {
                    let n = e@;
                    assert(n == old_e.update(i as int, (n[i as int].0, p)));
                    assert(ids_unique(n)) by {
                        assert forall|a: int, b: int| 0 <= a < b < n.len() implies #[trigger] n[a].0@
                            != #[trigger] n[b].0@ by {
                            assert(old_e[a].0@ != old_e[b].0@);
                        }
                    }
                    lemma_index_of(n, i as int);
                    assert forall|x: Seq<char>| #[trigger] has_id(n, x) == has_id(old_e, x) by {
                        if has_id(n, x) {
                            let j = index_of(n, x);
                            assert(old_e[j].0@ == x);
                        }
                        if has_id(old_e, x) {
                            let j = index_of(old_e, x);
                            assert(n[j].0@ == x);
                        }
                    }
                    assert forall|x: Seq<char>| has_id(n, x) && x != k implies n[index_of(n, x)].1
                        == old_e[index_of(old_e, x)].1 by {
                        let j = index_of(n, x);
                        lemma_index_of(old_e, j);
                    }
                    assert(entries_map(n) =~= entries_map(old_e).insert(k, p));
                }
            },
            None => {
                e.push((id, p));
                proof {
                    let n = e@;
                    let last = old_e.len() as int;
                    assert(ids_unique(n)) by {
                        assert forall|a: int, b: int| 0 <= a < b < n.len() implies #[trigger] n[a].0@
                            != #[trigger] n[b].0@ by {
                            if b == last {
                                assert(old_e[a].0@ != k);
                            } else {
                                assert(old_e[a].0@ != old_e[b].0@);
                            }
                        }
                    }
                    lemma_index_of(n, last);
                    assert forall|x: Seq<char>| #[trigger] has_id(n, x) == (has_id(old_e, x) || x
                        == k) by {
                        if has_id(n, x) {
                            let j = index_of(n, x);
                            if j < last {
                                assert(old_e[j].0@ == x);
                            }
                        }
                        if has_id(old_e, x) {
                            let j = index_of(old_e, x);
                            assert(n[j].0@ == x);
                        }
                    }
                    assert forall|x: Seq<char>| has_id(n, x) && x != k implies n[index_of(n, x)].1
                        == old_e[index_of(old_e, x)].1 by {
                        let j = index_of(n, x);
                        assert(j != last);
                        lemma_index_of(old_e, j);
                    }
                    assert(entries_map(n) =~= entries_map(old_e).insert(k, p));
                }
            },
        }
        self.entries = e;
    }

    /// Takes the plan held under `id` out, if there is one.
    pub fn remove(&mut self, id: &str) -> (r: Option<Plan>)
        ensures
            match r {
                Some(p) => old(self)@.contains_key(id@) && p == old(self)@[id@],
                None => !old(self)@.contains_key(id@),
            },
            final(self)@ == old(self)@.remove(id@),
    {
        proof {
            use_type_invariant(&*self);
        }
        let mut e: Vec<(String, Plan)> = Vec::new();
        std::mem::swap(&mut e, &mut self.entries);
        let ghost old_e = e@;
        let ghost k = id@;
        let r = match Self::find(&e, id) {
            Some(i) => {
                let (_, p) = e.remove(i);
                proof {
                    let n = e@;
                    lemma_index_of(old_e, i as int);
                    assert(ids_unique(n)) by {
                        assert forall|a: int, b: int| 0 <= a < b < n.len() implies #[trigger] n[a].0@
                            != #[trigger] n[b].0@ by {
                            let a2 = if a < i { a } else { a + 1 };
                            let b2 = if b < i { b } else { b + 1 };
                            assert(n[a] == old_e[a2]);
                            assert(n[b] == old_e[b2]);
                            assert(old_e[a2].0@ != old_e[b2].0@);
                        }
                    }
                    assert forall|x: Seq<char>| #[trigger] has_id(n, x) == (has_id(old_e, x) && x
                        != k) by {
                        if has_id(n, x) {
                            let j = index_of(n, x);
                            let j2 = if j < i { j } else { j + 1 };
                            assert(n[j] == old_e[j2]);
                            assert(old_e[j2].0@ == x);
                            assert(old_e[i as int].0@ != old_e[j2].0@);
                        }
                        if has_id(old_e, x) && x != k {
                            let j = index_of(old_e, x);
                            assert(j != i);
                            let j2 = if j < i { j } else { j - 1 };
                            assert(n[j2] == old_e[j]);
                        }
                    }
                    assert forall|x: Seq<char>| has_id(n, x) implies n[index_of(n, x)].1
                        == old_e[index_of(old_e, x)].1 by {
                        let j = index_of(n, x);
                        let j2 = if j < i { j } else { j + 1 };
                        assert(n[j] == old_e[j2]);
                        lemma_index_of(old_e, j2);
                    }
                    assert(entries_map(n) =~= entries_map(old_e).remove(k));
                }
                Some(p)
            },
            None => {
                proof {
                    assert(entries_map(e@) =~= entries_map(old_e).remove(k));
                }
                None
            },
        };
        self.entries = e;
        r
    }
}


/// The manager's state: the layout, the plans awaiting apply, and the
/// journal of applied operations.
pub struct Manager {
    pub env: Environment,
    pub plans: Plans,
    pub journal: Vec<History>,
    pub journal_path: String,
}

/// `h` is the journal entry with these fields, at any time.
pub open spec fn entry_is(
    h: History,
    id: Seq<char>,
    op: Seq<char>,
    status: Seq<char>,
    files: Seq<String>,
    backup: Option<String>,
    repo: Option<Repo>,
    commit: Option<String>,
    previous_commit: Option<String>,
    undo: bool,
    error: Option<String>,
) -> bool {
    &&& h.id@ == id
    &&& h.operation@ == op
    &&& h.status@ == status
    &&& h.files@ == files
    &&& h.backup == backup
    &&& h.repo == repo
    &&& h.commit == commit
    &&& h.previous_commit == previous_commit
    &&& h.undo_available == undo
    &&& h.error == error
}

/// How an applied plan is carried out.
pub enum ApplyKind {
    Configuration,
    Install,
    Update,
    Remove,
}

impl Manager {
    /// A manager over `env` with the journal read from `journal_path`, and no plans.
    pub fn open(env: Environment, journal: Vec<History>, journal_path: String) -> (m: Manager)
        ensures
            m.env == env,
            m.journal == journal,
            m.journal_path == journal_path,
            m.plans@ == Map::<Seq<char>, Plan>::empty(),
    {
        Manager { env, plans: Plans::new(), journal, journal_path }
    }

    /// Holds `p` under the preview id `id` and answers with the preview.
    pub fn plan(
        &mut self,
        id: String,
        p: Plan,
        title: String,
        detail: String,
        diff: String,
        target: Option<String>,
        files: Vec<String>,
        can: bool,
    ) -> (r: Response)
        ensures
            final(self).plans@ == old(self).plans@.insert(id@, p),
            final(self).env == old(self).env,
            final(self).journal == old(self).journal,
            final(self).journal_path == old(self).journal_path,
            carries_preview(r),
            r.preview matches Some(v) && {
                &&& v.id@ == id@
                &&& v.title == title
                &&& v.detail == detail
                &&& v.diff == diff
                &&& v.expected_source@ == text_or(p.expected_source, ""@)
                &&& v.proposed_source@ == text_or(p.proposed_source, ""@)
                &&& v.target_sha == target
                &&& v.files == files
                &&& v.can_apply == can
            },
    {
        let expected = match &p.expected_source {
            Some(s) => s.clone(),
            None => String::new(),
        };
        let proposed = match &p.proposed_source {
            Some(s) => s.clone(),
            None => String::new(),
        };
        let key = id.clone();
        proof {
            reveal_strlit("");
        }
        self.plans.insert(key, p);
        let v = Preview {
            id,
            title,
            detail,
            diff,
            expected_source: expected,
            proposed_source: proposed,
            target_sha: target,
            files,
            can_apply: can,
        };
        Response { preview: Some(v), ..Response::blank() }
    }

    /// Drops the plan held under `id`, if any.
    pub fn cancel(&mut self, id: &str) -> (r: Response)
        ensures
            final(self).plans@ == old(self).plans@.remove(id@),
            final(self).env == old(self).env,
            final(self).journal == old(self).journal,
            final(self).journal_path == old(self).journal_path,
            carries_message(r, "Cancelled"@),
    {
        self.plans.remove(id);
        Response::message(owned("Cancelled"))
    }

    /// Takes the plan of preview `id` out to be applied; a preview that was
    /// applied, cancelled or never made is refused.
    pub fn take_plan(&mut self, id: &str) -> (r: Result<Plan, String>)
        ensures
            match r {
                Ok(p) => old(self).plans@.contains_key(id@) && p == old(self).plans@[id@],
                Err(e) => !old(self).plans@.contains_key(id@) && e@
                    == "Preview expired or was cancelled; preview again"@,
            },
            final(self).plans@ == old(self).plans@.remove(id@),
            final(self).env == old(self).env,
            final(self).journal == old(self).journal,
            final(self).journal_path == old(self).journal_path,
    {
        match self.plans.remove(id) {
            Some(p) => Ok(p),
            None => Err(owned("Preview expired or was cancelled; preview again")),
        }
    }

    /// Ends an apply: the outcome is answered; a failed apply puts the plan
    /// back so that it can be applied again.
    pub fn finish_apply(&mut self, id: String, p: Plan, result: Result<Applied, String>) -> (r: Result<
        Response,
        String,
    >)
        ensures
            match result {
                Ok(a) => r matches Ok(x) && carries_applied(x, a) && final(self).plans@ == old(
                    self,
                ).plans@,
                Err(e) => r == Err::<Response, String>(e) && final(self).plans@ == old(
                    self,
                ).plans@.insert(id@, p),
            },
            final(self).env == old(self).env,
            final(self).journal == old(self).journal,
            final(self).journal_path == old(self).journal_path,
    {
        match result {
            Ok(a) => Ok(Response::applied(a)),
            Err(e) => {
                self.plans.insert(id, p);
                Err(e)
            },
        }
    }

    /// Appends an entry to the journal, stamped with the current time.
    pub fn record(
        &mut self,
        id: &str,
        op: &str,
        status: &str,
        files: Vec<String>,
        backup: Option<String>,
        repo: Option<Repo>,
        commit: Option<String>,
        previous_commit: Option<String>,
        undo: bool,
        error: Option<String>,
    )
        ensures
            final(self).journal@.len() == old(self).journal@.len() + 1,
            final(self).journal@.drop_last() == old(self).journal@,
            entry_is(
                final(self).journal@.last(),
                id@,
                op@,
                status@,
                files@,
                backup,
                repo,
                commit,
                previous_commit,
                undo,
                error,
            ),
            final(self).env == old(self).env,
            final(self).plans@ == old(self).plans@,
            final(self).journal_path == old(self).journal_path,
    {
        let h = History {
            id: owned(id),
            at: crate::system::seconds(),
            operation: owned(op),
            status: owned(status),
            files,
            backup,
            undo_available: undo,
            repo,
            commit,
            previous_commit,
            error,
        };
        self.journal.push(h);
        assert(self.journal@.drop_last() =~= old(self).journal@);
    }
}

/// How a plan's operation is carried out; `None` for an operation that no
/// plan can have.
pub open spec fn apply_kind_of(op: Seq<char>) -> Option<ApplyKind> {
    if op == "configuration"@ {
        Some(ApplyKind::Configuration)
    } else if op == "install"@ {
        Some(ApplyKind::Install)
    } else if op == "update"@ {
        Some(ApplyKind::Update)
    } else if op == "remove"@ {
        Some(ApplyKind::Remove)
    } else {
        None
    }
}

/// How the plan is carried out (see `apply_kind_of`).
pub fn apply_kind(p: &Plan) -> (r: Result<ApplyKind, String>)
    ensures
        match apply_kind_of(p.operation@) {
            Some(k) => r == Ok::<ApplyKind, String>(k),
            None => r matches Err(e) && e@ == "Unsupported operation"@,
        },
{
    let op = p.operation.as_str();
    if str_eq(op, "configuration") {
        Ok(ApplyKind::Configuration)
    } else if str_eq(op, "install") {
        Ok(ApplyKind::Install)
    } else if str_eq(op, "update") {
        Ok(ApplyKind::Update)
    } else if str_eq(op, "remove") {
        Ok(ApplyKind::Remove)
    } else {
        Err(owned("Unsupported operation"))
    }
}

/// A refused apply leaves the held plans as they were: taking the plan out
/// and putting it back under the same id restores the map.
pub proof fn refused_apply_keeps_plans(before: Map<Seq<char>, Plan>, id: Seq<char>)
    requires
        before.contains_key(id),
    ensures
        before.remove(id).insert(id, before[id]) == before,
{
    assert(before.remove(id).insert(id, before[id]) =~= before);
}

/// A cancelled or applied preview cannot be applied again: once its plan
/// is taken out, no plan is held under its id.
pub proof fn taken_plan_is_gone(before: Map<Seq<char>, Plan>, id: Seq<char>)
    ensures
        !before.remove(id).contains_key(id),
{
}

/// `s` split at every `c` (`str::split`).
pub open spec fn split_on(s: Seq<char>, c: char) -> Seq<Seq<char>>
    decreases s.len(),
{
    let k = find_char(s, 0, c);
    proof {
        lemma_find_char_bounds(s, 0, c);
    }
    if k < s.len() {
        seq![s.subrange(0, k)] + split_on(s.subrange(k + 1, s.len() as int), c)
    } else {
        seq![s]
    }
}

fn split_exec(s: &Vec<char>, c: char) -> (r: Vec<Vec<char>>)
    ensures
        r@.map_values(|v: Vec<char>| v@) == split_on(s@, c),
{
    let mut out: Vec<Vec<char>> = Vec::new();
    let mut rest = slice_chars(s, 0, s.len());
    assert(rest@ =~= s@);
    assert(out@.map_values(|v: Vec<char>| v@) =~= Seq::<Seq<char>>::empty());
    loop
        invariant
            split_on(s@, c) == out@.map_values(|v: Vec<char>| v@) + split_on(rest@, c),
        decreases rest.len(),
    {
        let k = find_char_at(&rest, 0, c);
        proof {
            lemma_find_char_bounds(rest@, 0, c);
        }
        let part = slice_chars(&rest, 0, k);
        if k < rest.len() {
            let next = slice_chars(&rest, k + 1, rest.len());
            let ghost before = out@.map_values(|v: Vec<char>| v@);
            out.push(part);
            assert(out@.map_values(|v: Vec<char>| v@) =~= before.push(rest@.subrange(0, k as int)));
            rest = next;
        } else {
            let ghost before = out@.map_values(|v: Vec<char>| v@);
            out.push(part);
            assert(rest@.subrange(0, k as int) =~= rest@);
            assert(out@.map_values(|v: Vec<char>| v@) =~= before.push(rest@));
            return out;
        }
    }
}

/// `s` holds one of the characters of `cs`.
pub open spec fn holds_any(s: Seq<char>, cs: Seq<char>) -> bool {
    exists|i: int| 0 <= i < s.len() && cs.contains(#[trigger] s[i])
}

/// `s` holds `..`.
pub open spec fn holds_dots(s: Seq<char>) -> bool {
    exists|i: int| 0 <= i && i + 1 < s.len() && #[trigger] s[i] == '.' && s[i + 1] == '.'
}

/// What `safe_github_url` gives: the trimmed link when it is an HTTPS link
/// to 2 to 8 plain path components on github.com, without a query, fragment,
/// backslash, white space or `..`.
pub open spec fn github_link(url: Seq<char>) -> Result<Seq<char>, Seq<char>> {
    let t = trim(url);
    let prefix = "https://github.com/"@;
    if !starts_with_at(t, 0, prefix) {
        Err("Only GitHub https links can be opened"@)
    } else {
        let rest = t.subrange(prefix.len() as int, t.len() as int);
        let parts = split_on(rest, '/');
        if rest.len() == 0 || holds_any(rest, seq!['?', '#', '\\', ' ', '\n', '\r', '\t'])
            || holds_dots(rest) || parts.len() < 2 || parts.len() > 8 || exists|i: int|
            0 <= i < parts.len() && !is_component(#[trigger] parts[i]) {
            Err("Unsupported GitHub link"@)
        } else {
            Ok(prefix + rest)
        }
    }
}

/// Checks a link before it is opened (see `github_link`).
pub fn safe_github_url(url: &str) -> (r: Result<String, String>)
    ensures
        match r {
            Ok(x) => github_link(url@) == Ok::<Seq<char>, Seq<char>>(x@),
            Err(e) => github_link(url@) == Err::<Seq<char>, Seq<char>>(e@),
        },
{
    let v = chars_of(url);
    let t = trim_chars(&v);
    let prefix = chars_of("https://github.com/");
    proof {
        reveal_strlit("https://github.com/");
    }
    if !starts_with_at_exec(&t, 0, &prefix) {
        return Err(owned("Only GitHub https links can be opened"));
    }
    let rest = slice_chars(&t, prefix.len(), t.len());
    let ghost cs = seq!['?', '#', '\\', ' ', '\n', '\r', '\t'];
    let mut bad = rest.len() == 0;
    let mut i: usize = 0;
    while i < rest.len()
        invariant
            i <= rest.len(),
            cs == seq!['?', '#', '\\', ' ', '\n', '\r', '\t'],
            bad == (rest@.len() == 0 || (exists|k: int| 0 <= k < i && cs.contains(#[trigger] rest@[k]))
                || (exists|k: int| 0 <= k && k + 1 < i + 1 && k + 1 < rest@.len() && #[trigger] rest@[k]
                == '.' && rest@[k + 1] == '.')),
        decreases rest.len() - i,
    {
        let c = rest[i];
        let hit = c == '?' || c == '#' || c == '\\' || c == ' ' || c == '\n' || c == '\r' || c == '\t';
        assert(hit == cs.contains(c)) by {
            if hit {
                assert(cs.contains(c)) by {
                    if c == '?' { assert(cs[0] == c); }
                    else if c == '#' { assert(cs[1] == c); }
                    else if c == '\\' { assert(cs[2] == c); }
                    else if c == ' ' { assert(cs[3] == c); }
                    else if c == '\n' { assert(cs[4] == c); }
                    else if c == '\r' { assert(cs[5] == c); }
                    else { assert(cs[6] == c); }
                }
            }
        }
        let dots = i + 1 < rest.len() && c == '.' && rest[i + 1] == '.';
        bad = bad || hit || dots;
        i += 1;
    }
    proof {
        assert(bad == (rest@.len() == 0 || holds_any(rest@, cs) || holds_dots(rest@)));
    }
    let parts = split_exec(&rest, '/');
    let ghost pm = parts@.map_values(|v: Vec<char>| v@);
    let mut all = true;
    let mut j: usize = 0;
    while j < parts.len()
        invariant
            j <= parts@.len(),
            pm == parts@.map_values(|v: Vec<char>| v@),
            all == forall|k: int| 0 <= k < j ==> is_component(#[trigger] pm[k]),
        decreases parts.len() - j,
    {
        let w = string_of(&parts[j]);
        let ok = component(w.as_str());
        assert(pm[j as int] == parts@[j as int]@);
        all = all && ok;
        j += 1;
    }
    if bad || parts.len() < 2 || parts.len() > 8 || !all {
        return Err(owned("Unsupported GitHub link"));
    }
    let mut out = prefix;
    extend_chars(&mut out, &rest);
    Ok(string_of(&out))
}


/// Whether `n` is one of the names in `v`.
fn contains_name(v: &Vec<String>, n: &str) -> (r: bool)
    ensures
        r == strings_model(v@).contains(n@),
{
    let mut i: usize = 0;
    while i < v.len()
        invariant
            i <= v@.len(),
            forall|k: int| 0 <= k < i ==> v@[k]@ != n@,
        decreases v.len() - i,
    {
        if str_eq(v[i].as_str(), n) {
            assert(strings_model(v@)[i as int] == n@);
            return true;
        }
        i += 1;
    }
    assert forall|k: int| 0 <= k < strings_model(v@).len() implies strings_model(v@)[k] != n@ by {
        assert(strings_model(v@)[k] == v@[k]@);
    }
    false
}

/// The first index from `i` whose name is neither enabled already
/// (`current`) nor a loadable plugin (`ok`), or the length when there is none.
pub open spec fn first_refused(current: Seq<Seq<char>>, names: Seq<Seq<char>>, ok: Seq<bool>, i: int) -> int
    decreases names.len() - i,
{
    if i < 0 || i >= names.len() {
        names.len() as int
    } else if !current.contains(names[i]) && !ok[i] {
        i
    } else {
        first_refused(current, names, ok, i + 1)
    }
}

impl Manager {
    /// The two files whose presence makes `name` a loadable plugin: the
    /// official `plugins/<name>/<name>.plugin.zsh` and the custom one; `None`
    /// for a name that is not a plain component.
    pub fn plugin_files(&self, name: &str) -> (r: Option<(String, String)>)
        ensures
            !is_component(name@) ==> r is None,
            is_component(name@) ==> (r matches Some(f) && f.0@ == path_join(
                path_join(path_join(self.env.zsh@, "plugins"@), name@),
                name@ + ".plugin.zsh"@,
            ) && f.1@ == path_join(
                path_join(path_join(self.env.custom@, "plugins"@), name@),
                name@ + ".plugin.zsh"@,
            )),
    {
        if !component(name) {
            return None;
        }
        let file = concat(name, ".plugin.zsh");
        let a = join(self.env.zsh.as_str(), "plugins");
        let a = join(a.as_str(), name);
        let a = join(a.as_str(), file.as_str());
        let b = join(self.env.custom.as_str(), "plugins");
        let b = join(b.as_str(), name);
        let b = join(b.as_str(), file.as_str());
        Some((a, b))
    }

    /// Previews writing `theme` and `plugins` into the configuration: the
    /// text is `expected` when given, else `current`. A plugin that is not
    /// already enabled must be loadable (`loadable[i]` for `plugins[i]`, see
    /// `plugin_files`). The preview is held under `id`.
    pub fn config_preview(
        &mut self,
        id: String,
        current: String,
        theme: String,
        plugins: Vec<String>,
        expected: Option<String>,
        loadable: &Vec<bool>,
    ) -> (r: Result<Response, String>)
        requires
            loadable@.len() == plugins@.len(),
        ensures
            ({
                let src = match expected {
                    Some(e) => e@,
                    None => current@,
                };
                let names = strings_model(plugins@);
                let k = first_refused(parsed_plugins(src), names, loadable@, 0);
                let v = Values { theme, plugins };
                if k < names.len() {
                    &&& r matches Err(e) && e@ == names[k]
                        + " is not a loadable Oh My Zsh plugin. Install a regular plugin, or keep it out of plugins=()."@
                    &&& final(self).plans@ == old(self).plans@
                } else {
                    match edit_text(src, v) {
                        Err(e) => r matches Err(x) && x@ == e && final(self).plans@ == old(
                            self,
                        ).plans@,
                        Ok(p) => r matches Ok(resp) && carries_preview(resp) && (resp.preview matches Some(
                            pv,
                        ) && {
                            let plan = final(self).plans@[id@];
                            &&& final(self).plans@ == old(self).plans@.insert(id@, plan)
                            &&& plan.operation@ == "configuration"@
                            &&& plan.expected_source matches Some(x) && x@ == src
                            &&& plan.proposed_source matches Some(x) && x@ == p
                            &&& plan.repo is None
                            &&& plan.target is None
                            &&& pv.id@ == id@
                            &&& pv.title@ == "Review .zshrc changes"@
                            &&& pv.detail@
                                == "The proposed file will be syntax checked, backed up, and replaced atomically."@
                            &&& pv.diff@ == diff_text(src, p)
                            &&& pv.expected_source@ == src
                            &&& pv.proposed_source@ == p
                            &&& pv.target_sha is None
                            &&& strings_model(pv.files@) == seq![old(self).env.config@]
                            &&& pv.can_apply
                        }),
                    }
                }
            }),
            final(self).env == old(self).env,
            final(self).journal == old(self).journal,
            final(self).journal_path == old(self).journal_path,
    {
        let source = match expected {
            Some(e) => e,
            None => current,
        };
        let d = Document::parse(source.clone());
        proof {
            lemma_edit_text(d, Values { theme, plugins });
        }
        let ghost names = strings_model(plugins@);
        let ghost have = parsed_plugins(source@);
        let mut i: usize = 0;
        while i < plugins.len()
            invariant
                i <= plugins@.len(),
                loadable@.len() == plugins@.len(),
                names == strings_model(plugins@),
                have == strings_model(d.values.plugins@),
                have == parsed_plugins(source@),
                source@ == match expected {
                    Some(e) => e@,
                    None => current@,
                },
                first_refused(have, names, loadable@, 0) == first_refused(have, names, loadable@, i as int),
            decreases plugins.len() - i,
        {
            let known = contains_name(&d.values.plugins, plugins[i].as_str());
            assert(names[i as int] == plugins@[i as int]@);
            if !known && !loadable[i] {
                assert(!have.contains(names[i as int]) && !loadable@[i as int]);
                assert(first_refused(have, names, loadable@, i as int) == i);
                let mut m = chars_of(plugins[i].as_str());
                extend_str(
                    &mut m,
                    " is not a loadable Oh My Zsh plugin. Install a regular plugin, or keep it out of plugins=().",
                );
                return Err(string_of(&m));
            }
            i += 1;
        }
        let values = Values { theme, plugins };
        let proposed = match d.edit(&values) {
            Ok(p) => p,
            Err(e) => {
                return Err(e);
            },
        };
        let shown = diff(source.as_str(), proposed.as_str());
        let plan = Plan {
            operation: owned("configuration"),
            expected_source: Some(source.clone()),
            proposed_source: Some(proposed.clone()),
            repo: None,
            target: None,
        };
        let mut files: Vec<String> = Vec::new();
        files.push(self.env.config.clone());
        assert(strings_model(files@) =~= seq![self.env.config@]);
        let r = self.plan(
            id,
            plan,
            owned("Review .zshrc changes"),
            owned("The proposed file will be syntax checked, backed up, and replaced atomically."),
            shown,
            None,
            files,
            true,
        );
        Ok(r)
    }
}


/// A copy of a list of strings.
pub fn clone_strings(v: &Vec<String>) -> (r: Vec<String>)
    ensures
        r@ == v@,
{
    let mut out: Vec<String> = Vec::new();
    let mut i: usize = 0;
    while i < v.len()
        invariant
            i <= v@.len(),
            out@ == v@.take(i as int),
        decreases v.len() - i,
    {
        out.push(v[i].clone());
        assert(v@.take(i as int).push(v@[i as int]) =~= v@.take(i + 1));
        i += 1;
    }
    assert(v@.take(v@.len() as int) =~= v@);
    out
}

/// What undoing a journal entry has to do, with the entry's data it needs.
#[derive(Debug)]
pub enum UndoStep {
    /// Write the backed-up configuration back.
    Configuration { backup: String },
    /// Quarantine the checkout of `repo` again.
    Install { repo: Repo },
    /// Move the quarantined checkout back, then write the backed-up
    /// configuration back when there is one.
    Remove { checkout: String, quarantine: String, backup: Option<String> },
    /// Check out `previous` again where `target` is checked out.
    Update { repo: Repo, previous: String, target: String },
}

/// The first index from `i` whose entry has id `id`, or the length.
pub open spec fn first_entry(j: Seq<History>, id: Seq<char>, i: int) -> int
    decreases j.len() - i,
{
    if i < 0 || i >= j.len() {
        j.len() as int
    } else if j[i].id@ == id {
        i
    } else {
        first_entry(j, id, i + 1)
    }
}

/// What undoing the entry `h` needs, or why it cannot be undone.
pub open spec fn undo_step_of(h: History) -> Result<UndoStep, Seq<char>> {
    let op = h.operation@;
    if op == "configuration"@ {
        match h.backup {
            None => Err("Configuration backup missing"@),
            Some(b) => Ok(UndoStep::Configuration { backup: b }),
        }
    } else if op == "install"@ {
        match h.repo {
            None => Err("Plugin repository metadata missing"@),
            Some(r) => Ok(UndoStep::Install { repo: r }),
        }
    } else if op == "remove"@ {
        if h.files@.len() < 1 {
            Err("Removed plugin path missing"@)
        } else if h.files@.len() < 2 {
            Err("Plugin quarantine path missing"@)
        } else {
            Ok(
                UndoStep::Remove {
                    checkout: h.files@[0],
                    quarantine: h.files@[1],
                    backup: h.backup,
                },
            )
        }
    } else if op == "update"@ {
        match (h.repo, h.previous_commit, h.commit) {
            (None, _, _) => Err("Plugin repository metadata missing"@),
            (Some(_), None, _) => Err("Previous commit metadata missing"@),
            (Some(_), Some(_), None) => Err("Current commit metadata missing"@),
            (Some(r), Some(p), Some(t)) => Ok(UndoStep::Update { repo: r, previous: p, target: t }),
        }
    } else {
        Err("This operation does not support automatic restore"@)
    }
}

/// How undoing the entry with id `id` starts: the index of the first entry
/// with that id and what undoing it needs; or why it is refused.
pub open spec fn undo_start(j: Seq<History>, id: Seq<char>) -> Result<(int, UndoStep), Seq<char>> {
    let i = first_entry(j, id, 0);
    if i >= j.len() {
        Err("History entry not found"@)
    } else if !j[i].undo_available {
        Err("This operation cannot be restored automatically"@)
    } else {
        match undo_step_of(j[i]) {
            Err(e) => Err(e),
            Ok(s) => Ok((i, s)),
        }
    }
}

/// `after` is `before` with entry `i` no longer undoable and one entry appended.
pub open spec fn marked_undone(before: Seq<History>, i: int, after: Seq<History>) -> bool {
    &&& 0 <= i < before.len()
    &&& after.len() == before.len() + 1
    &&& forall|k: int| 0 <= k < before.len() && k != i ==> after[k] == before[k]
    &&& after[i] == History { undo_available: false, ..before[i] }
}

impl Manager {
    /// Starts undoing the journal entry `history_id` (see `undo_start`).
    pub fn undo_begin(&self, history_id: &str) -> (r: Result<(usize, UndoStep), String>)
        ensures
            match undo_start(self.journal@, history_id@) {
                Ok((i, s)) => r matches Ok((x, y)) && x == i && y == s,
                Err(e) => r matches Err(x) && x@ == e,
            },
    {
        let mut i: usize = 0;
        while i < self.journal.len() && !str_eq(self.journal[i].id.as_str(), history_id)
            invariant
                i <= self.journal@.len(),
                first_entry(self.journal@, history_id@, 0) == first_entry(self.journal@, history_id@, i as int),
            decreases self.journal.len() - i,
        {
            i += 1;
        }
        if i >= self.journal.len() {
            return Err(owned("History entry not found"));
        }
        let h = &self.journal[i];
        if !h.undo_available {
            return Err(owned("This operation cannot be restored automatically"));
        }
        let op = h.operation.as_str();
        let step = if str_eq(op, "configuration") {
            match &h.backup {
                None => {
                    return Err(owned("Configuration backup missing"));
                },
                Some(b) => UndoStep::Configuration { backup: b.clone() },
            }
        } else if str_eq(op, "install") {
            match &h.repo {
                None => {
                    return Err(owned("Plugin repository metadata missing"));
                },
                Some(r) => UndoStep::Install { repo: r.clone() },
            }
        } else if str_eq(op, "remove") {
            if h.files.len() < 1 {
                return Err(owned("Removed plugin path missing"));
            }
            if h.files.len() < 2 {
                return Err(owned("Plugin quarantine path missing"));
            }
            let backup = match &h.backup {
                None => None,
                Some(b) => Some(b.clone()),
            };
            UndoStep::Remove {
                checkout: h.files[0].clone(),
                quarantine: h.files[1].clone(),
                backup,
            }
        } else if str_eq(op, "update") {
            let repo = match &h.repo {
                None => {
                    return Err(owned("Plugin repository metadata missing"));
                },
                Some(r) => r.clone(),
            };
            let previous = match &h.previous_commit {
                None => {
                    return Err(owned("Previous commit metadata missing"));
                },
                Some(p) => p.clone(),
            };
            let target = match &h.commit {
                None => {
                    return Err(owned("Current commit metadata missing"));
                },
                Some(t) => t.clone(),
            };
            UndoStep::Update { repo, previous, target }
        } else {
            return Err(owned("This operation does not support automatic restore"));
        };
        Ok((i, step))
    }

    /// Ends an undo: entry `index` can no longer be undone, and an `undo`
    /// entry records what was restored. Its files are the entry's files and
    /// `extra_file`; a restored update (`restored` is the commit reached and
    /// the one it replaced) records those commits, any other undo the
    /// entry's.
    pub fn undo_finish(
        &mut self,
        index: usize,
        operation_id: String,
        extra_file: Option<String>,
        backup: Option<String>,
        restored: Option<(String, String)>,
    ) -> (r: Applied)
        requires
            index < old(self).journal@.len(),
        ensures
            ({
                let h = old(self).journal@[index as int];
                let (commit, previous) = match restored {
                    Some((c, p)) => (Some(c), Some(p)),
                    None => (h.commit, h.previous_commit),
                };
                &&& marked_undone(old(self).journal@, index as int, final(self).journal@)
                &&& entry_is(
                    final(self).journal@.last(),
                    operation_id@,
                    "undo"@,
                    "restored"@,
                    h.files@ + match extra_file {
                        Some(f) => seq![f],
                        None => Seq::empty(),
                    },
                    backup,
                    h.repo,
                    commit,
                    previous,
                    false,
                    None,
                )
                &&& r.id@ == operation_id@
                &&& r.status@ == "restored"@
                &&& r.backup == backup
                &&& r.commit == commit
                &&& !r.undo_available
            }),
            final(self).env == old(self).env,
            final(self).plans@ == old(self).plans@,
            final(self).journal_path == old(self).journal_path,
    {
        let mut files = clone_strings(&self.journal[index].files);
        match extra_file {
            Some(f) => {
                files.push(f);
            },
            None => {},
        }
        let repo = self.journal[index].repo.clone();
        let (commit, previous) = match restored {
            Some((c, p)) => (Some(c), Some(p)),
            None => (self.journal[index].commit.clone(), self.journal[index].previous_commit.clone()),
        };
        let ghost before = self.journal@;
        self.journal[index].undo_available = false;
        let ghost middle = self.journal@;
        assert(middle == before.update(index as int, History { undo_available: false, ..before[index as int] }));
        let applied_backup = match &backup {
            None => None,
            Some(b) => Some(b.clone()),
        };
        let applied_commit = match &commit {
            None => None,
            Some(c) => Some(c.clone()),
        };
        let id = operation_id.clone();
        self.record(
            operation_id.as_str(),
            "undo",
            "restored",
            files,
            backup,
            repo,
            commit,
            previous,
            false,
            None,
        );
        proof {
            reveal_strlit("undo");
            reveal_strlit("restored");
            let h = before[index as int];
            let after = self.journal@;
            assert forall|k: int| 0 <= k < before.len() implies after[k] == middle[k] by {
                assert(after.drop_last()[k] == after[k]);
            }
            assert(marked_undone(before, index as int, self.journal@));
            assert(self.journal@.last().files@ == h.files@ + match extra_file {
                Some(f) => seq![f],
                None => Seq::empty(),
            });
            assert(self.journal@.last().repo == h.repo);
        }
        Applied {
            id,
            status: owned("restored"),
            backup: applied_backup,
            commit: applied_commit,
            undo_available: false,
        }
    }
}

/// The index at which an undo started.
pub open spec fn started_at(r: Result<(int, UndoStep), Seq<char>>) -> int {
    match r {
        Ok((i, _)) => i,
        Err(_) => -1,
    }
}

/// Undo consumes its journal entry: once an undo that started on the entry
/// with id `id` has ended, undoing `id` again is refused.
pub proof fn undo_consumes_entry(before: Seq<History>, id: Seq<char>, after: Seq<History>)
    requires
        undo_start(before, id) is Ok,
        marked_undone(before, started_at(undo_start(before, id)), after),
    ensures
        undo_start(after, id) == Err::<(int, UndoStep), Seq<char>>(
            "This operation cannot be restored automatically"@,
        ),
{
    let i = started_at(undo_start(before, id));
    assert(i == first_entry(before, id, 0));
    lemma_first_entry_prefix(before, after, id, 0, i);
}

/// The first entry with an id is found again in a journal that agrees on
/// the ids of every entry up to it.
proof fn lemma_first_entry_prefix(before: Seq<History>, after: Seq<History>, id: Seq<char>, k: int, i: int)
    requires
        0 <= k <= i < before.len(),
        i < after.len(),
        first_entry(before, id, k) == i,
        forall|m: int| k <= m <= i ==> #[trigger] after[m].id == before[m].id,
    ensures
        first_entry(after, id, k) == i,
    decreases i - k,
{
    lemma_first_entry_bounds(before, id, k);
    if k < i {
        assert(before[k].id@ != id);
        assert(after[k].id == before[k].id);
        lemma_first_entry_prefix(before, after, id, k + 1, i);
    } else {
        assert(after[k].id == before[k].id);
    }
}

proof fn lemma_first_entry_bounds(j: Seq<History>, id: Seq<char>, k: int)
    requires
        0 <= k <= j.len(),
    ensures
        k <= first_entry(j, id, k) <= j.len(),
        first_entry(j, id, k) < j.len() ==> j[first_entry(j, id, k)].id@ == id,
        forall|m: int| k <= m < first_entry(j, id, k) ==> j[m].id@ != id,
    decreases j.len() - k,
{
    if k < j.len() && j[k].id@ != id {
        lemma_first_entry_bounds(j, id, k + 1);
    }
}


/// Undoing the install of `name` is refused while the configuration text
/// `source` still enables it.
pub fn install_undo_check(source: String, name: &str) -> (r: Result<(), String>)
    ensures
        parsed_plugins(source@).contains(name@) ==> (r matches Err(e) && e@
            == "Disable this plugin in .zshrc before undoing its installation"@),
        !parsed_plugins(source@).contains(name@) ==> r is Ok,
{
    let d = Document::parse(source);
    proof {
        lemma_edit_text(d, d.values);
    }
    if contains_name(&d.values.plugins, name) {
        return Err(owned("Disable this plugin in .zshrc before undoing its installation"));
    }
    Ok(())
}

/// Where a commit is checked against the one that was expected.
pub enum CommitCheck {
    /// A fresh checkout, after `checkout` of the target.
    Install,
    /// An updated checkout, after `checkout` of the target.
    Update,
    /// A checkout about to be restored, against the commit the update reached.
    UndoStart,
    /// A restored checkout, against the commit it had before the update.
    UndoEnd,
}

/// The refusal when the commit found is not the one expected.
pub open spec fn commit_refusal(at: CommitCheck) -> Seq<char> {
    match at {
        CommitCheck::Install => "Checkout did not reach requested commit"@,
        CommitCheck::Update => "Update did not reach requested commit"@,
        CommitCheck::UndoStart => "Checkout changed since the update; refusing automatic restore"@,
        CommitCheck::UndoEnd => "Restore did not reach the previous commit"@,
    }
}

/// Checks that the commit `got` is `want` (see `commit_refusal`).
pub fn check_commit(got: &str, want: &str, at: CommitCheck) -> (r: Result<(), String>)
    ensures
        got@ == want@ ==> r is Ok,
        got@ != want@ ==> (r matches Err(e) && e@ == commit_refusal(at)),
{
    if str_eq(got, want) {
        return Ok(());
    }
    match at {
        CommitCheck::Install => Err(owned("Checkout did not reach requested commit")),
        CommitCheck::Update => Err(owned("Update did not reach requested commit")),
        CommitCheck::UndoStart => Err(
            owned("Checkout changed since the update; refusing automatic restore"),
        ),
        CommitCheck::UndoEnd => Err(owned("Restore did not reach the previous commit")),
    }
}

/// `p` is the canonical path `root` or lies under it (`Path::starts_with`
/// on canonical `/`-separated paths).
pub open spec fn under(root: Seq<char>, p: Seq<char>) -> bool {
    ||| p == root
    ||| starts_with_at(p, 0, root) && root.len() > 0 && root.last() == '/'
    ||| starts_with_at(p, 0, root) && p.len() > root.len() && p[root.len() as int] == '/'
}

/// The text after the last `c` of `s` (all of `s` when it has none).
pub open spec fn after_last(s: Seq<char>, c: char) -> Seq<char>
    decreases s.len(),
{
    if s.len() == 0 {
        s
    } else if s.last() == c {
        Seq::empty()
    } else {
        after_last(s.drop_last(), c).push(s.last())
    }
}

/// The file name of `p` has the extension `zshrc` (`Path::extension`): it
/// ends with `.zshrc` after a non-empty stem.
pub open spec fn zshrc_extension(p: Seq<char>) -> bool {
    let f = after_last(p, '/');
    f.len() > 6 && f.subrange(f.len() - 6, f.len() as int) == ".zshrc"@
}

fn after_last_exec(s: &Vec<char>, c: char) -> (r: Vec<char>)
    ensures
        r@ == after_last(s@, c),
{
    let mut k: usize = s.len();
    assert(s@.take(k as int) =~= s@);
    assert(s@.subrange(k as int, s@.len() as int) =~= Seq::<char>::empty());
    assert(after_last(s@, c) + Seq::<char>::empty() =~= after_last(s@, c));
    while k > 0 && s[k - 1] != c
        invariant
            k <= s@.len(),
            after_last(s@, c) == after_last(s@.take(k as int), c) + s@.subrange(k as int, s@.len() as int),
        decreases k,
    {
        let ghost t = s@.take(k as int);
        assert(t.drop_last() =~= s@.take(k - 1));
        assert(s@.subrange(k - 1, s@.len() as int) =~= seq![s@[k - 1]] + s@.subrange(k as int, s@.len() as int));
        assert(after_last(t, c) == after_last(s@.take(k - 1), c).push(s@[k - 1]));
        assert(after_last(s@.take(k - 1), c).push(s@[k - 1]) + s@.subrange(k as int, s@.len() as int)
            =~= after_last(s@.take(k - 1), c) + s@.subrange(k - 1, s@.len() as int));
        k -= 1;
    }
    if k > 0 {
        assert(after_last(s@.take(k as int), c) =~= Seq::<char>::empty());
    } else {
        assert(after_last(s@.take(0), c) =~= Seq::<char>::empty());
    }
    let r = slice_chars(s, k, s.len());
    assert(after_last(s@, c) =~= r@);
    r
}

impl Manager {
    /// The canonical path of a backup that may be restored or deleted:
    /// `root` is the canonical backup directory and `candidate` the canonical
    /// path asked for (`None` where canonicalizing failed); the path must lie
    /// under the directory and name a `.zshrc` file.
    pub fn checked_backup(root: Option<String>, candidate: Option<String>) -> (r: Result<String, String>)
        ensures
            match (root, candidate) {
                (None, _) => r matches Err(e) && e@ == "Backup directory is unavailable"@,
                (Some(_), None) => r matches Err(e) && e@ == "Backup file is unavailable"@,
                (Some(d), Some(c)) => if under(d@, c@) && zshrc_extension(c@) {
                    r matches Ok(x) && x@ == c@
                } else {
                    r matches Err(e) && e@ == "Backup path is outside the managed backup directory"@
                },
            },
    {
        let d = match root {
            None => {
                return Err(owned("Backup directory is unavailable"));
            },
            Some(d) => d,
        };
        let c = match candidate {
            None => {
                return Err(owned("Backup file is unavailable"));
            },
            Some(c) => c,
        };
        let inside = is_under(d.as_str(), c.as_str());
        let cv = chars_of(c.as_str());
        let f = after_last_exec(&cv, '/');
        let ext = chars_of(".zshrc");
        proof {
            reveal_strlit(".zshrc");
        }
        let named = f.len() > 6 && starts_with_at_exec(&f, f.len() - 6, &ext);
        if inside && named {
            Ok(c)
        } else {
            Err(owned("Backup path is outside the managed backup directory"))
        }
    }

    /// After a backup file is deleted, no journal entry that saved its
    /// configuration to it (as `path` or as its canonical form) can be undone.
    pub fn forget_backup(&mut self, path: &str, canonical: &str)
        ensures
            final(self).journal@.len() == old(self).journal@.len(),
            forall|k: int|
                0 <= k < old(self).journal@.len() ==> #[trigger] final(self).journal@[k] == if (
                old(self).journal@[k].backup matches Some(b) && (b@ == path@ || b@ == canonical@)) {
                    History { undo_available: false, ..old(self).journal@[k] }
                } else {
                    old(self).journal@[k]
                },
            final(self).env == old(self).env,
            final(self).plans@ == old(self).plans@,
            final(self).journal_path == old(self).journal_path,
    {
        let mut i: usize = 0;
        while i < self.journal.len()
            invariant
                i <= self.journal@.len(),
                self.journal@.len() == old(self).journal@.len(),
                self.env == old(self).env,
                self.plans@ == old(self).plans@,
                self.journal_path == old(self).journal_path,
                forall|k: int| i <= k < self.journal@.len() ==> self.journal@[k] == old(self).journal@[k],
                forall|k: int|
                    0 <= k < i ==> #[trigger] self.journal@[k] == if (
                    old(self).journal@[k].backup matches Some(b) && (b@ == path@ || b@ == canonical@)) {
                        History { undo_available: false, ..old(self).journal@[k] }
                    } else {
                        old(self).journal@[k]
                    },
            decreases self.journal.len() - i,
        {
            let hit = match &self.journal[i].backup {
                Some(b) => str_eq(b.as_str(), path) || str_eq(b.as_str(), canonical),
                None => false,
            };
            if hit {
                self.journal[i].undo_available = false;
            }
            i += 1;
        }
    }
}


/// The texts a configuration or removal plan writes: what the file must
/// still hold, and what replaces it.
pub fn plan_texts(p: &Plan) -> (r: Result<(String, String), String>)
    ensures
        match (p.expected_source, p.proposed_source) {
            (None, _) => r matches Err(e) && e@ == "Missing snapshot"@,
            (Some(_), None) => r matches Err(e) && e@ == "Missing proposal"@,
            (Some(a), Some(b)) => r matches Ok((x, y)) && x == a && y == b,
        },
{
    let a = match &p.expected_source {
        None => {
            return Err(owned("Missing snapshot"));
        },
        Some(a) => a.clone(),
    };
    let b = match &p.proposed_source {
        None => {
            return Err(owned("Missing proposal"));
        },
        Some(b) => b.clone(),
    };
    Ok((a, b))
}

/// The repository and target commit of a plugin plan.
pub fn plan_checkout(p: &Plan) -> (r: (Repo, String))
    requires
        p.repo is Some,
        p.target is Some,
    ensures
        r.0 == p.repo->0,
        r.1 == p.target->0,
{
    let repo = match &p.repo {
        Some(r) => r.clone(),
        None => Repo { owner: String::new(), name: String::new() },
    };
    let target = match &p.target {
        Some(t) => t.clone(),
        None => String::new(),
    };
    (repo, target)
}

/// The plugin file of a checkout: `<dir>/<name>.plugin.zsh`.
pub fn plugin_file_in(dir: &str, name: &str) -> (r: String)
    ensures
        r@ == path_join(dir@, name@ + ".plugin.zsh"@),
{
    let f = concat(name, ".plugin.zsh");
    join(dir, f.as_str())
}

/// The two theme files a checkout may have under its name:
/// `<dir>/<name>.zsh-theme` and `<dir>/<name>/<name>.zsh-theme`.
pub fn theme_files_in(dir: &str, name: &str) -> (r: (String, String))
    ensures
        r.0@ == path_join(dir@, name@ + ".zsh-theme"@),
        r.1@ == path_join(path_join(dir@, name@), name@ + ".zsh-theme"@),
{
    let f = concat(name, ".zsh-theme");
    let a = join(dir, f.as_str());
    let d = join(dir, name);
    let b = join(d.as_str(), f.as_str());
    (a, b)
}

/// The theme names of the `.zsh-theme` files among `files`, in order
/// (`trim_end_matches(".zsh-theme")`).
pub open spec fn theme_stems(files: Seq<Seq<char>>) -> Seq<Seq<char>>
    decreases files.len(),
{
    if files.len() == 0 {
        Seq::empty()
    } else {
        let f = files.last();
        let rest = theme_stems(files.drop_last());
        if f.len() >= 10 && f.subrange(f.len() - 10, f.len() as int) == ".zsh-theme"@ {
            rest.push(strip_all_suffix(f, ".zsh-theme"@))
        } else {
            rest
        }
    }
}

/// What a checkout's theme is called in `ZSH_THEME`: `<name>/<name>` when it
/// has a theme file named after it (`direct`, `nested`), else
/// `<name>/<stem>` for its only `.zsh-theme` file among `files` (its regular
/// files, `None` when the directory cannot be read), else none.
pub open spec fn theme_literal_of(
    name: Seq<char>,
    direct: bool,
    nested: bool,
    files: Option<Seq<Seq<char>>>,
) -> Option<Seq<char>> {
    if direct || nested {
        Some(name + "/"@ + name)
    } else {
        match files {
            None => None,
            Some(fs) => if theme_stems(fs).len() == 1 {
                Some(name + "/"@ + theme_stems(fs)[0])
            } else {
                None
            },
        }
    }
}

/// The theme a checkout provides (see `theme_literal_of`).
pub fn theme_literal_from(name: &str, direct: bool, nested: bool, files: Option<Vec<String>>) -> (r:
    Option<String>)
    ensures
        match theme_literal_of(
            name@,
            direct,
            nested,
            match files {
                None => None,
                Some(fs) => Some(strings_model(fs@)),
            },
        ) {
            None => r is None,
            Some(t) => r matches Some(x) && x@ == t,
        },
{
    if direct || nested {
        let mut v = chars_of(name);
        extend_str(&mut v, "/");
        extend_str(&mut v, name);
        return Some(string_of(&v));
    }
    let fs = match files {
        None => {
            return None;
        },
        Some(fs) => fs,
    };
    let suffix = chars_of(".zsh-theme");
    proof {
        reveal_strlit(".zsh-theme");
    }
    let ghost m = strings_model(fs@);
    let mut found: Vec<Vec<char>> = Vec::new();
    let mut i: usize = 0;
    while i < fs.len()
        invariant
            i <= fs@.len(),
            m == strings_model(fs@),
            suffix@ == ".zsh-theme"@,
            found@.map_values(|v: Vec<char>| v@) == theme_stems(m.take(i as int)),
        decreases fs.len() - i,
    {
        assert(m.take(i + 1).drop_last() =~= m.take(i as int));
        assert(m.take(i + 1).last() == fs@[i as int]@);
        let f = chars_of(fs[i].as_str());
        let ghost t = m.take(i + 1);
        proof {
            reveal_strlit(".zsh-theme");
        }
        if f.len() >= 10 && starts_with_at_exec(&f, f.len() - 10, &suffix) {
            let stem = strip_all_suffix_exec(f, &suffix);
            let ghost before = found@.map_values(|v: Vec<char>| v@);
            found.push(stem);
            assert(found@.map_values(|v: Vec<char>| v@) =~= before.push(stem@));
            assert(theme_stems(t) == theme_stems(t.drop_last()).push(strip_all_suffix(t.last(), ".zsh-theme"@)));
        } else {
            assert(theme_stems(t) == theme_stems(t.drop_last()));
        }
        i += 1;
    }
    assert(m.take(fs@.len() as int) =~= m);
    if found.len() == 1 {
        assert(found@.map_values(|v: Vec<char>| v@)[0] == found@[0]@);
        let mut v = chars_of(name);
        extend_str(&mut v, "/");
        extend_chars(&mut v, &found[0]);
        Some(string_of(&v))
    } else {
        None
    }
}

/// What installing `name` does to the configuration: a loadable plugin is
/// enabled when it is not yet, a theme becomes the theme. The status tells
/// which; the proposed text is there when the values change.
pub open spec fn install_config_of(
    s: Seq<char>,
    name: Seq<char>,
    loadable: bool,
    theme: Option<Seq<char>>,
) -> Result<(Seq<char>, Option<Seq<char>>), Seq<char>> {
    let have = parsed_plugins(s);
    let names = if loadable && !have.contains(name) {
        have.push(name)
    } else {
        have
    };
    let new_theme = match theme {
        Some(t) => t,
        None => parsed_theme(s),
    };
    let status = if theme is Some {
        "installed theme"@
    } else {
        "installed and enabled"@
    };
    if names == have && new_theme == parsed_theme(s) {
        Ok((status, None))
    } else {
        match edit_names(s, new_theme, names) {
            Ok(p) => Ok((status, Some(p))),
            Err(e) => Err(e),
        }
    }
}

/// Whether an installed checkout touches the configuration: it does when
/// it is a loadable plugin or a theme.
pub fn install_enables(loadable: bool, theme: &Option<String>) -> (r: bool)
    ensures
        r == (loadable || theme is Some),
{
    loadable || theme.is_some()
}

/// What installing `name` does to the configuration text `source` (see
/// `install_config_of`).
pub fn install_config(source: String, name: &str, loadable: bool, theme: Option<String>) -> (r: Result<
    (String, Option<String>),
    String,
>)
    requires
        loadable || theme is Some,
    ensures
        match install_config_of(
            source@,
            name@,
            loadable,
            match theme {
                Some(t) => Some(t@),
                None => None,
            },
        ) {
            Ok((st, p)) => r matches Ok((x, y)) && x@ == st && match p {
                None => y is None,
                Some(q) => y matches Some(z) && z@ == q,
            },
            Err(e) => r matches Err(x) && x@ == e,
        },
{
    let d = Document::parse(source);
    proof {
        lemma_edit_text(d, d.values);
    }
    let ghost s = d.source@;
    let mut plugins = clone_strings(&d.values.plugins);
    let mut changed = false;
    if loadable && !contains_name(&d.values.plugins, name) {
        plugins.push(owned(name));
        changed = true;
        assert(strings_model(plugins@) =~= parsed_plugins(s).push(name@));
    }
    let is_theme = theme.is_some();
    let new_theme = match theme {
        Some(t) => {
            if !str_eq(t.as_str(), d.values.theme.as_str()) {
                changed = true;
            }
            t
        },
        None => d.values.theme.clone(),
    };
    let status = if is_theme {
        owned("installed theme")
    } else {
        owned("installed and enabled")
    };
    let values = Values { theme: new_theme, plugins };
    proof {
        lemma_edit_names(s, values);
        if !changed {
            assert(strings_model(values.plugins@) =~= parsed_plugins(s));
        } else {
            if strings_model(values.plugins@) == parsed_plugins(s) {
                assert(strings_model(values.plugins@).len() == parsed_plugins(s).len());
            }
        }
    }
    if !changed {
        return Ok((status, None));
    }
    match d.edit(&values) {
        Ok(p) => Ok((status, Some(p))),
        Err(e) => Err(e),
    }
}

impl Manager {
    /// Where a fresh checkout goes: a theme that is not also a loadable
    /// plugin goes under `custom/themes`, anything else under `custom/plugins`.
    pub fn install_path(&self, name: &str, loadable: bool, theme_found: bool) -> (r: Result<String, String>)
        ensures
            !is_component(name@) ==> (r matches Err(e) && e@ == "Invalid plugin directory name"@),
            is_component(name@) ==> (r matches Ok(p) && p@ == path_join(
                path_join(
                    self.env.custom@,
                    if !loadable && theme_found {
                        "themes"@
                    } else {
                        "plugins"@
                    },
                ),
                name@,
            )),
    {
        if !loadable && theme_found {
            self.env.theme_path(name)
        } else {
            self.env.plugin_path(name)
        }
    }

    /// Where a fresh checkout is moved to (see `install_path`), refused when
    /// that path is a symbolic link (`is_link`): a linked checkout is read-only.
    pub fn install_checkout(&self, name: &str, loadable: bool, theme_found: bool, is_link: bool) -> (r:
        Result<String, String>)
        ensures
            !is_component(name@) ==> (r matches Err(e) && e@ == "Invalid plugin directory name"@),
            is_component(name@) && is_link ==> (r matches Err(e) && e@
                == "Linked plugin checkout is read-only"@),
            is_component(name@) && !is_link ==> (r matches Ok(p) && p@ == path_join(
                path_join(
                    self.env.custom@,
                    if !loadable && theme_found {
                        "themes"@
                    } else {
                        "plugins"@
                    },
                ),
                name@,
            )),
    {
        if !loadable && theme_found {
            self.env.managed_checkout("themes", name, is_link)
        } else {
            self.env.managed_checkout("plugins", name, is_link)
        }
    }

    /// Where the checkout of `name` is: its plugin directory when that exists
    /// (`plugin_exists`), else its theme directory when that exists.
    pub fn checkout_dir(&self, name: &str, plugin_exists: bool, theme_exists: bool) -> (r: Result<
        String,
        String,
    >)
        ensures
            !is_component(name@) ==> (r matches Err(e) && e@ == "Invalid plugin directory name"@),
            is_component(name@) ==> if plugin_exists {
                r matches Ok(p) && p@ == path_join(path_join(self.env.custom@, "plugins"@), name@)
            } else if theme_exists {
                r matches Ok(p) && p@ == path_join(path_join(self.env.custom@, "themes"@), name@)
            } else {
                r matches Err(e) && e@ == name@ + " is not installed"@
            },
    {
        let plugin = match self.env.plugin_path(name) {
            Ok(p) => p,
            Err(e) => {
                return Err(e);
            },
        };
        if plugin_exists {
            return Ok(plugin);
        }
        let theme = match self.env.theme_path(name) {
            Ok(p) => p,
            Err(e) => {
                return Err(e);
            },
        };
        if theme_exists {
            return Ok(theme);
        }
        Err(concat(name, " is not installed"))
    }

    /// Records an applied configuration change and answers with its outcome.
    pub fn applied_config(&mut self, id: &str, backup: String) -> (a: Applied)
        ensures
            final(self).journal@.drop_last() == old(self).journal@,
            final(self).journal@.len() == old(self).journal@.len() + 1,
            entry_is(
                final(self).journal@.last(),
                id@,
                "configuration"@,
                "applied"@,
                seq![old(self).env.config],
                Some(backup),
                None,
                None,
                None,
                true,
                None,
            ),
            a.id@ == id@,
            a.status@ == "applied"@,
            a.backup == Some(backup),
            a.commit is None,
            a.undo_available,
            final(self).env == old(self).env,
            final(self).plans@ == old(self).plans@,
            final(self).journal_path == old(self).journal_path,
    {
        let mut files: Vec<String> = Vec::new();
        files.push(self.env.config.clone());
        assert(files@ =~= seq![self.env.config]);
        self.record(id, "configuration", "applied", files, Some(backup.clone()), None, None, None, true, None);
        proof {
            reveal_strlit("configuration");
            reveal_strlit("applied");
        }
        Applied {
            id: owned(id),
            status: owned("applied"),
            backup: Some(backup),
            commit: None,
            undo_available: true,
        }
    }

    /// Records an installed checkout at `path` and answers with its outcome.
    pub fn applied_install(
        &mut self,
        id: &str,
        path: String,
        backup: Option<String>,
        repo: Repo,
        got: String,
        status: String,
    ) -> (a: Applied)
        ensures
            final(self).journal@.drop_last() == old(self).journal@,
            final(self).journal@.len() == old(self).journal@.len() + 1,
            entry_is(
                final(self).journal@.last(),
                id@,
                "install"@,
                "applied"@,
                seq![path],
                backup,
                Some(repo),
                Some(got),
                None,
                true,
                None,
            ),
            a.id@ == id@,
            a.status == status,
            a.backup == backup,
            a.commit == Some(got),
            a.undo_available,
            final(self).env == old(self).env,
            final(self).plans@ == old(self).plans@,
            final(self).journal_path == old(self).journal_path,
    {
        let mut files: Vec<String> = Vec::new();
        files.push(path);
        let kept = match &backup {
            None => None,
            Some(b) => Some(b.clone()),
        };
        let commit = got.clone();
        self.record(id, "install", "applied", files, backup, Some(repo), Some(got), None, true, None);
        proof {
            reveal_strlit("install");
            reveal_strlit("applied");
        }
        Applied { id: owned(id), status, backup: kept, commit: Some(commit), undo_available: true }
    }

    /// Records an updated checkout at `path`, which was at `old` before, and
    /// answers with its outcome.
    pub fn applied_update(&mut self, id: &str, path: String, repo: Repo, got: String, previous: String) -> (a:
        Applied)
        requires
            byte_boundary(previous@, 8),
        ensures
            final(self).journal@.drop_last() == old(self).journal@,
            final(self).journal@.len() == old(self).journal@.len() + 1,
            entry_is(
                final(self).journal@.last(),
                id@,
                "update"@,
                "applied"@,
                seq![path],
                None,
                Some(repo),
                Some(got),
                Some(previous),
                true,
                None,
            ),
            a.id@ == id@,
            a.status@ == "updated from "@ + byte_prefix(previous@, 8),
            a.backup is None,
            a.commit == Some(got),
            !a.undo_available,
            final(self).env == old(self).env,
            final(self).plans@ == old(self).plans@,
            final(self).journal_path == old(self).journal_path,
    {
        let mut files: Vec<String> = Vec::new();
        files.push(path);
        let short = prefix_bytes(previous.as_str(), 8);
        let status = concat("updated from ", short.as_str());
        let commit = got.clone();
        self.record(id, "update", "applied", files, None, Some(repo), Some(got), Some(previous), true, None);
        proof {
            reveal_strlit("update");
            reveal_strlit("applied");
        }
        Applied { id: owned(id), status, backup: None, commit: Some(commit), undo_available: false }
    }

    /// Records a removed checkout, moved from `path` to `quarantine`, and
    /// answers with its outcome.
    pub fn applied_remove(
        &mut self,
        id: &str,
        path: String,
        quarantine: String,
        backup: String,
        repo: Repo,
        target: Option<String>,
    ) -> (a: Applied)
        ensures
            final(self).journal@.drop_last() == old(self).journal@,
            final(self).journal@.len() == old(self).journal@.len() + 1,
            entry_is(
                final(self).journal@.last(),
                id@,
                "remove"@,
                "applied"@,
                seq![path, quarantine],
                Some(backup),
                Some(repo),
                Some(final(self).journal@.last().commit->0),
                None,
                true,
                None,
            ),
            final(self).journal@.last().commit->0@ == text_or(target, ""@),
            a.id@ == id@,
            a.status@ == "removed (quarantined; manual restore is required)"@,
            a.backup == Some(backup),
            a.commit is None,
            a.undo_available,
            final(self).env == old(self).env,
            final(self).plans@ == old(self).plans@,
            final(self).journal_path == old(self).journal_path,
    {
        let mut files: Vec<String> = Vec::new();
        files.push(path);
        files.push(quarantine);
        assert(files@ =~= seq![path, quarantine]);
        let commit = match target {
            Some(t) => t,
            None => String::new(),
        };
        proof {
            reveal_strlit("");
        }
        let kept = backup.clone();
        self.record(id, "remove", "applied", files, Some(backup), Some(repo), Some(commit), None, true, None);
        proof {
            reveal_strlit("remove");
            reveal_strlit("applied");
        }
        Applied {
            id: owned(id),
            status: owned("removed (quarantined; manual restore is required)"),
            backup: Some(kept),
            commit: None,
            undo_available: true,
        }
    }
}

/// The error when a checkout could not be moved into place.
pub fn activation_failed(e: &str) -> (r: String)
    ensures
        r@ == "Plugin activation failed: "@ + e@,
{
    concat("Plugin activation failed: ", e)
}

/// The error when a removed checkout could not be quarantined and the
/// configuration was put back.
pub fn quarantine_failed(e: &str) -> (r: String)
    ensures
        r@ == "Plugin quarantine failed; configuration restored: "@ + e@,
{
    concat("Plugin quarantine failed; configuration restored: ", e)
}


/// The repository a plugin request names: `owner/repository`.
pub fn preview_repo(owner: &str, repository: &str) -> (r: Result<Repo, String>)
    ensures
        match repo_parse(owner@ + "/"@ + repository@) {
            Some(m) => r matches Ok(x) && x.model() == m,
            None => r matches Err(e) && e@ == "Use a GitHub owner/repository or HTTPS repository URL"@,
        },
{
    let mut v = chars_of(owner);
    extend_str(&mut v, "/");
    extend_str(&mut v, repository);
    let t = string_of(&v);
    Repo::parse(t.as_str())
}

/// Where the target commit of a plugin operation comes from.
#[derive(Debug)]
pub enum TargetSource {
    /// The commit the user asked for.
    Given(String),
    /// The commit the checkout is at (for a removal).
    Checkout,
    /// The head of the upstream default branch.
    Upstream,
}

/// Where the target commit comes from: a requested commit must be a full
/// SHA; without one a removal targets the checkout's commit and any other
/// operation the upstream head.
pub fn target_source(operation: &str, requested: Option<String>) -> (r: Result<TargetSource, String>)
    ensures
        match requested {
            Some(s) => if is_sha(s@) {
                r matches Ok(TargetSource::Given(x)) && x == s
            } else {
                r matches Err(e) && e@ == "Commit must be a 40-character SHA"@
            },
            None => if operation@ == "remove"@ {
                r matches Ok(TargetSource::Checkout)
            } else {
                r matches Ok(TargetSource::Upstream)
            },
        },
{
    match requested {
        Some(s) => {
            if full_sha(s.as_str()) {
                Ok(TargetSource::Given(s))
            } else {
                Err(owned("Commit must be a 40-character SHA"))
            }
        },
        None => {
            if str_eq(operation, "remove") {
                Ok(TargetSource::Checkout)
            } else {
                Ok(TargetSource::Upstream)
            }
        },
    }
}

/// A plugin operation.
pub enum PluginOp {
    Install,
    Update,
    Remove,
}

/// The plugin operation named `operation`.
pub fn plugin_op(operation: &str) -> (r: Result<PluginOp, String>)
    ensures
        operation@ == "install"@ ==> r matches Ok(PluginOp::Install),
        operation@ == "update"@ ==> r matches Ok(PluginOp::Update),
        operation@ == "remove"@ ==> r matches Ok(PluginOp::Remove),
        operation@ != "install"@ && operation@ != "update"@ && operation@ != "remove"@ ==> (r matches Err(
            e,
        ) && e@ == "Unknown plugin operation"@),
{
    proof {
        reveal_strlit("install");
        reveal_strlit("update");
        reveal_strlit("remove");
        assert("install"@[0] != "update"@[0]);
        assert("install"@[0] != "remove"@[0]);
        assert("update"@[0] != "remove"@[0]);
    }
    if str_eq(operation, "install") {
        Ok(PluginOp::Install)
    } else if str_eq(operation, "update") {
        Ok(PluginOp::Update)
    } else if str_eq(operation, "remove") {
        Ok(PluginOp::Remove)
    } else {
        Err(owned("Unknown plugin operation"))
    }
}

/// What installing `repo` at `target` is described as; refused when the
/// plugin or theme directory already exists (`installed`).
pub fn install_detail(repo: &Repo, target: &str, installed: bool) -> (r: Result<String, String>)
    requires
        byte_boundary(target@, 8),
    ensures
        installed ==> (r matches Err(e) && e@ == "Plugin already installed"@),
        !installed ==> (r matches Ok(x) && x@ == "Install "@ + repo.owner@ + "/"@ + repo.name@
            + " at commit "@ + byte_prefix(target@, 8)
            + ". Regular Oh My Zsh plugins are enabled in .zshrc. Themes go into custom/themes. Other checkouts are not added to plugins=(). Git hooks and submodules are disabled."@),
{
    if installed {
        return Err(owned("Plugin already installed"));
    }
    let mut v = chars_of("Install ");
    let slug = repo.slug();
    extend_str(&mut v, slug.as_str());
    extend_str(&mut v, " at commit ");
    let short = prefix_bytes(target, 8);
    extend_str(&mut v, short.as_str());
    extend_str(
        &mut v,
        ". Regular Oh My Zsh plugins are enabled in .zshrc. Themes go into custom/themes. Other checkouts are not added to plugins=(). Git hooks and submodules are disabled.",
    );
    Ok(string_of(&v))
}

/// What updating `repo` from `current` to `target` is described as, with
/// the change summary (or a note that it is unavailable).
pub fn update_detail(repo: &Repo, current: &str, target: &str, summary: Result<String, String>) -> (r:
    String)
    requires
        byte_boundary(current@, 8),
        byte_boundary(target@, 8),
    ensures
        r@ == "Update "@ + repo.owner@ + "/"@ + repo.name@ + " from "@ + byte_prefix(current@, 8)
            + " to "@ + byte_prefix(target@, 8) + ".\n"@ + match summary {
            Ok(x) => x@,
            Err(_) => "Commit summary unavailable"@,
        },
{
    let mut v = chars_of("Update ");
    let slug = repo.slug();
    extend_str(&mut v, slug.as_str());
    extend_str(&mut v, " from ");
    let a = prefix_bytes(current, 8);
    extend_str(&mut v, a.as_str());
    extend_str(&mut v, " to ");
    let b = prefix_bytes(target, 8);
    extend_str(&mut v, b.as_str());
    extend_str(&mut v, ".\n");
    match summary {
        Ok(x) => extend_str(&mut v, x.as_str()),
        Err(_) => extend_str(&mut v, "Commit summary unavailable"),
    }
    string_of(&v)
}

/// What removing `repo`, checked out at `current`, is described as.
pub fn remove_detail(repo: &Repo, current: &str) -> (r: String)
    requires
        byte_boundary(current@, 8),
    ensures
        r@ == "Remove "@ + repo.owner@ + "/"@ + repo.name@ + " at "@ + byte_prefix(current@, 8)
            + " after disabling it in .zshrc. Checkout is quarantined and recorded for manual restore."@,
{
    let mut v = chars_of("Remove ");
    let slug = repo.slug();
    extend_str(&mut v, slug.as_str());
    extend_str(&mut v, " at ");
    let a = prefix_bytes(current, 8);
    extend_str(&mut v, a.as_str());
    extend_str(
        &mut v,
        " after disabling it in .zshrc. Checkout is quarantined and recorded for manual restore.",
    );
    string_of(&v)
}

/// `ns` without every occurrence of `n`, in order.
pub open spec fn without(ns: Seq<Seq<char>>, n: Seq<char>) -> Seq<Seq<char>>
    decreases ns.len(),
{
    if ns.len() == 0 {
        Seq::empty()
    } else if ns.last() == n {
        without(ns.drop_last(), n)
    } else {
        without(ns.drop_last(), n).push(ns.last())
    }
}

/// The configuration text that removing `name` leaves, with its diff: the
/// name is dropped from `plugins`; without a readable text (`None`) the
/// removal is refused.
pub fn remove_proposal(source: Option<String>, name: &str) -> (r: Result<(String, String), String>)
    ensures
        match source {
            None => r matches Err(e) && e@ == "Cannot read .zshrc"@,
            Some(s) => match edit_names(s@, parsed_theme(s@), without(parsed_plugins(s@), name@)) {
                Ok(p) => r matches Ok((x, d)) && x@ == p && d@ == diff_text(s@, p),
                Err(e) => r matches Err(x) && x@ == e,
            },
        },
{
    let s = match source {
        None => {
            return Err(owned("Cannot read .zshrc"));
        },
        Some(s) => s,
    };
    let d = Document::parse(s);
    proof {
        lemma_edit_text(d, d.values);
    }
    let ghost have = parsed_plugins(d.source@);
    let mut kept: Vec<String> = Vec::new();
    let mut i: usize = 0;
    while i < d.values.plugins.len()
        invariant
            i <= d.values.plugins@.len(),
            have == strings_model(d.values.plugins@),
            strings_model(kept@) == without(have.take(i as int), name@),
        decreases d.values.plugins.len() - i,
    {
        assert(have.take(i + 1).drop_last() =~= have.take(i as int));
        assert(have.take(i + 1).last() == d.values.plugins@[i as int]@);
        if !str_eq(d.values.plugins[i].as_str(), name) {
            let ghost before = strings_model(kept@);
            kept.push(d.values.plugins[i].clone());
            assert(strings_model(kept@) =~= before.push(d.values.plugins@[i as int]@));
        }
        i += 1;
    }
    assert(have.take(have.len() as int) =~= have);
    let values = Values { theme: d.values.theme.clone(), plugins: kept };
    proof {
        lemma_edit_names(d.source@, values);
    }
    match d.edit(&values) {
        Ok(p) => {
            let shown = diff(d.source.as_str(), p.as_str());
            Ok((p, shown))
        },
        Err(e) => Err(e),
    }
}

impl Manager {
    /// Holds a plugin operation's plan under `id` and answers with its
    /// preview. The files are the repository and the checkout, when there is
    /// one; the configuration change is there for a removal.
    pub fn plugin_preview_finish(
        &mut self,
        id: String,
        operation: String,
        source: Option<String>,
        change: Option<(String, String)>,
        repo: Repo,
        target: String,
        detail: String,
        checkout: Option<String>,
    ) -> (r: Response)
        ensures
            carries_preview(r),
            r.preview matches Some(v) && {
                let plan = final(self).plans@[id@];
                &&& final(self).plans@ == old(self).plans@.insert(id@, plan)
                &&& plan.operation == operation
                &&& plan.expected_source == source
                &&& plan.proposed_source == match change {
                    Some(c) => Some(c.0),
                    None => None,
                }
                &&& plan.repo == Some(repo)
                &&& plan.target == Some(target)
                &&& v.id@ == id@
                &&& v.title@ == "Review plugin operation"@
                &&& v.detail == detail
                &&& v.expected_source@ == text_or(source, ""@)
                &&& v.proposed_source@ == match change {
                    Some(c) => c.0@,
                    None => ""@,
                }
                &&& v.diff@ == match change {
                    Some(c) => c.1@,
                    None => "No .zshrc change"@,
                }
                &&& v.target_sha == Some(target)
                &&& strings_model(v.files@) == seq![repo.owner@ + "/"@ + repo.name@] + match checkout {
                    Some(c) => seq![c@],
                    None => Seq::empty(),
                }
                &&& v.can_apply
            },
            final(self).env == old(self).env,
            final(self).journal == old(self).journal,
            final(self).journal_path == old(self).journal_path,
    {
        let mut files: Vec<String> = Vec::new();
        files.push(repo.slug());
        match checkout {
            Some(c) => {
                files.push(c);
            },
            None => {},
        }
        assert(strings_model(files@) =~= seq![repo.owner@ + "/"@ + repo.name@] + match checkout {
            Some(c) => seq![c@],
            None => Seq::<Seq<char>>::empty(),
        });
        let (proposed, shown) = match change {
            Some((p, d)) => (Some(p), d),
            None => (None, owned("No .zshrc change")),
        };
        let shown_target = target.clone();
        let plan = Plan {
            operation,
            expected_source: source,
            proposed_source: proposed,
            repo: Some(repo),
            target: Some(target),
        };
        self.plan(
            id,
            plan,
            owned("Review plugin operation"),
            detail,
            shown,
            Some(shown_target),
            files,
            true,
        )
    }

    /// What the capability check reports.
    pub fn capability(&self, zsh: bool, git: bool) -> (r: Capability)
        ensures
            r.zsh == zsh,
            r.git == git,
            r.path == self.env.config,
            r.platform == self.env.label,
            r.warnings@.len() == 0,
    {
        Capability {
            zsh,
            git,
            path: self.env.config.clone(),
            platform: self.env.label.clone(),
            warnings: Vec::new(),
        }
    }
}

/// Whether an installed checkout at `current` lags the upstream head `available`.
pub fn update_needed(current: &str, available: &str) -> (r: bool)
    ensures
        r == (current@ != available@),
{
    !str_eq(current, available)
}

/// An available update, with the change summary (or a note that it is
/// unavailable).
pub fn update_view(name: String, repo: Repo, current: String, available: String, summary: Result<
    String,
    String,
>) -> (r: UpdateView)
    ensures
        r.name == name,
        r.repo == repo,
        r.current_sha == current,
        r.available_sha == available,
        r.summary@ == match summary {
            Ok(x) => x@,
            Err(_) => "Commit summary unavailable"@,
        },
{
    let summary = match summary {
        Ok(x) => x,
        Err(_) => owned("Commit summary unavailable"),
    };
    UpdateView { name, repo, current_sha: current, available_sha: available, summary }
}

/// The installed checkouts that can be checked for updates: those with a
/// known repository and commit, in order.
pub open spec fn updatable(infos: Seq<InstalledPlugin>) -> Seq<InstalledPlugin>
    decreases infos.len(),
{
    if infos.len() == 0 {
        Seq::empty()
    } else {
        let rest = updatable(infos.drop_last());
        if infos.last().repo is Some && infos.last().current_sha is Some {
            rest.push(infos.last())
        } else {
            rest
        }
    }
}

/// The checkouts to check for updates (see `updatable`), as name,
/// repository and current commit.
pub fn update_candidates(infos: &Vec<InstalledPlugin>) -> (r: Vec<(String, Repo, String)>)
    ensures
        r@.len() == updatable(infos@).len(),
        forall|k: int|
            0 <= k < r@.len() ==> {
                let u = #[trigger] updatable(infos@)[k];
                &&& r@[k].0 == u.name
                &&& Some(r@[k].1) == u.repo
                &&& Some(r@[k].2) == u.current_sha
            },
{
    let mut out: Vec<(String, Repo, String)> = Vec::new();
    let mut i: usize = 0;
    while i < infos.len()
        invariant
            i <= infos@.len(),
            out@.len() == updatable(infos@.take(i as int)).len(),
            forall|k: int|
                0 <= k < out@.len() ==> {
                    let u = #[trigger] updatable(infos@.take(i as int))[k];
                    &&& out@[k].0 == u.name
                    &&& Some(out@[k].1) == u.repo
                    &&& Some(out@[k].2) == u.current_sha
                },
        decreases infos.len() - i,
    {
        assert(infos@.take(i + 1).drop_last() =~= infos@.take(i as int));
        assert(infos@.take(i + 1).last() == infos@[i as int]);
        let p = &infos[i];
        match (&p.repo, &p.current_sha) {
            (Some(r), Some(c)) => {
                out.push((p.name.clone(), r.clone(), c.clone()));
            },
            _ => {},
        }
        i += 1;
    }
    assert(infos@.take(infos@.len() as int) =~= infos@);
    out
}

/// What the token status request reports: whether a token is stored, or
/// why the credential store could not be asked.
pub fn token_status(stored: Result<bool, String>) -> (r: String)
    ensures
        match stored {
            Ok(true) => r@ == "configured"@,
            Ok(false) => r@ == "not_configured"@,
            Err(e) => r@ == "unavailable: "@ + e@,
        },
{
    match stored {
        Ok(true) => owned("configured"),
        Ok(false) => owned("not_configured"),
        Err(e) => concat("unavailable: ", e.as_str()),
    }
}


/// The names among `ns` that are plain components, in order.
pub open spec fn components_of(ns: Seq<Seq<char>>) -> Seq<Seq<char>>
    decreases ns.len(),
{
    if ns.len() == 0 {
        Seq::empty()
    } else if is_component(ns.last()) {
        components_of(ns.drop_last()).push(ns.last())
    } else {
        components_of(ns.drop_last())
    }
}

/// The directory names that can be managed (see `components_of`).
pub fn component_names(names: Vec<String>) -> (r: Vec<String>)
    ensures
        strings_model(r@) == components_of(strings_model(names@)),
{
    let ghost m = strings_model(names@);
    let mut out: Vec<String> = Vec::new();
    let mut i: usize = 0;
    while i < names.len()
        invariant
            i <= names@.len(),
            m == strings_model(names@),
            strings_model(out@) == components_of(m.take(i as int)),
        decreases names.len() - i,
    {
        assert(m.take(i + 1).drop_last() =~= m.take(i as int));
        assert(m.take(i + 1).last() == names@[i as int]@);
        if component(names[i].as_str()) {
            let ghost before = strings_model(out@);
            out.push(names[i].clone());
            assert(strings_model(out@) =~= before.push(names@[i as int]@));
        }
        i += 1;
    }
    assert(m.take(names@.len() as int) =~= m);
    out
}

/// `acc` followed by the names of `ts` that it does not hold yet, each once.
pub open spec fn merged(acc: Seq<Seq<char>>, ts: Seq<Seq<char>>) -> Seq<Seq<char>>
    decreases ts.len(),
{
    if ts.len() == 0 {
        acc
    } else {
        let a = merged(acc, ts.drop_last());
        if a.contains(ts.last()) {
            a
        } else {
            a.push(ts.last())
        }
    }
}

/// The installed checkouts: the plugin directories, then the theme
/// directories whose names are not already listed.
pub fn installed_names(plugins: Vec<String>, themes: &Vec<String>) -> (r: Vec<String>)
    ensures
        strings_model(r@) == merged(strings_model(plugins@), strings_model(themes@)),
{
    let ghost p = strings_model(plugins@);
    let ghost t = strings_model(themes@);
    let mut out = plugins;
    let mut i: usize = 0;
    while i < themes.len()
        invariant
            i <= themes@.len(),
            t == strings_model(themes@),
            strings_model(out@) == merged(p, t.take(i as int)),
        decreases themes.len() - i,
    {
        assert(t.take(i + 1).drop_last() =~= t.take(i as int));
        assert(t.take(i + 1).last() == themes@[i as int]@);
        if !contains_name(&out, themes[i].as_str()) {
            let ghost before = strings_model(out@);
            out.push(themes[i].clone());
            assert(strings_model(out@) =~= before.push(themes@[i as int]@));
        }
        i += 1;
    }
    assert(t.take(themes@.len() as int) =~= t);
    out
}

/// The repository that the journal records for the checkout at `path`: that
/// of the latest entry that lists the path among its files and names a
/// repository.
pub open spec fn journal_repo_of(j: Seq<History>, path: Seq<char>) -> Option<Repo>
    decreases j.len(),
{
    if j.len() == 0 {
        None
    } else if strings_model(j.last().files@).contains(path) && j.last().repo is Some {
        j.last().repo
    } else {
        journal_repo_of(j.drop_last(), path)
    }
}

/// The repository a remote URL names, if it is a GitHub repository.
pub fn origin_repo(url: Result<String, String>) -> (r: Option<Repo>)
    ensures
        match url {
            Err(_) => r is None,
            Ok(u) => match repo_parse(u@) {
                None => r is None,
                Some(m) => r matches Some(x) && x.model() == m,
            },
        },
{
    match url {
        Err(_) => None,
        Ok(u) => match Repo::parse(u.as_str()) {
            Ok(x) => Some(x),
            Err(_) => None,
        },
    }
}

impl Manager {
    /// The repository the journal records for the checkout at `path` (see
    /// `journal_repo_of`).
    pub fn journal_repo(&self, path: &str) -> (r: Option<Repo>)
        ensures
            r == journal_repo_of(self.journal@, path@),
    {
        let ghost j = self.journal@;
        let mut i: usize = self.journal.len();
        assert(j.take(i as int) =~= j);
        while i > 0
            invariant
                i <= j.len(),
                j == self.journal@,
                journal_repo_of(j, path@) == journal_repo_of(j.take(i as int), path@),
            decreases i,
        {
            let ghost t = j.take(i as int);
            assert(t.drop_last() =~= j.take(i - 1));
            assert(t.last() == j[i - 1]);
            let h = &self.journal[i - 1];
            if h.repo.is_some() && contains_name(&h.files, path) {
                return h.repo.clone();
            }
            i -= 1;
        }
        None
    }

    /// What the application shows of the configuration text `source`, with
    /// what was found on the machine.
    pub fn snapshot(
        &self,
        source: String,
        zsh_available: bool,
        installed: Vec<String>,
        facts: Vec<CheckoutFacts>,
        official: Vec<CatalogItem>,
        themes: Vec<String>,
    ) -> (r: Snapshot)
        requires
            facts@.len() == installed@.len(),
        ensures
            r.path == self.env.config,
            r.source@ == source@,
            r.values.theme@ == parsed_theme(source@),
            r.values.plugin_names() == parsed_plugins(source@),
            strings_model(r.warnings@) == parse_warnings(source@),
            r.zsh_available == zsh_available,
            r.platform == self.env.label,
            r.plugin_root@ == path_join(self.env.custom@, "plugins"@),
            r.installed_custom == installed,
            r.installed_custom_info@.len() == installed@.len(),
            forall|i: int|
                0 <= i < installed@.len() ==> {
                    let p = #[trigger] r.installed_custom_info@[i];
                    &&& p.name == installed@[i]
                    &&& p.repo == facts@[i].repo
                    &&& p.current_sha == facts@[i].current_sha
                    &&& p.loadable == facts@[i].loadable
                },
            r.official_plugins == official,
            r.themes == themes,
    {
        let d = Document::parse(source);
        proof {
            lemma_edit_text(d, d.values);
        }
        let mut info: Vec<InstalledPlugin> = Vec::new();
        let mut i: usize = 0;
        while i < installed.len()
            invariant
                i <= installed@.len(),
                facts@.len() == installed@.len(),
                info@.len() == i,
                forall|k: int|
                    0 <= k < i ==> {
                        let p = #[trigger] info@[k];
                        &&& p.name == installed@[k]
                        &&& p.repo == facts@[k].repo
                        &&& p.current_sha == facts@[k].current_sha
                        &&& p.loadable == facts@[k].loadable
                    },
            decreases installed.len() - i,
        {
            info.push(
                InstalledPlugin {
                    name: installed[i].clone(),
                    repo: facts[i].repo.clone(),
                    current_sha: facts[i].current_sha.clone(),
                    loadable: facts[i].loadable,
                },
            );
            i += 1;
        }
        Snapshot {
            path: self.env.config.clone(),
            source: d.source,
            values: d.values,
            warnings: d.warnings,
            zsh_available,
            platform: self.env.label.clone(),
            plugin_root: join(self.env.custom.as_str(), "plugins"),
            installed_custom: installed,
            installed_custom_info: info,
            official_plugins: official,
            themes,
        }
    }
}


/// Each name comes before the next in the order of `str`.
pub open spec fn strictly_sorted(r: Seq<Seq<char>>) -> bool {
    forall|i: int, j: int| 0 <= i < j < r.len() ==> text_lt(#[trigger] r[i], #[trigger] r[j])
}

/// `r` holds the names of `xs`, each once, in the order of `str`
/// (`sort` then `dedup`).
pub open spec fn sorted_set_of(r: Seq<Seq<char>>, xs: Seq<Seq<char>>) -> bool {
    &&& strictly_sorted(r)
    &&& forall|x: Seq<char>| r.contains(x) <==> xs.contains(x)
}

/// Puts `x` into its place in a sorted list of distinct names, unless it
/// is there already.
fn insert_sorted(out: &mut Vec<String>, x: String)
    requires
        strictly_sorted(strings_model(old(out)@)),
    ensures
        strictly_sorted(strings_model(final(out)@)),
        forall|y: Seq<char>|
            strings_model(final(out)@).contains(y) <==> (strings_model(old(out)@).contains(y) || y
                == x@),
{
    let ghost sm = strings_model(out@);
    let mut p: usize = 0;
    while p < out.len() && text_less(out[p].as_str(), x.as_str())
        invariant
            p <= out@.len(),
            sm == strings_model(out@),
            forall|k: int| 0 <= k < p ==> text_lt(#[trigger] sm[k], x@),
        decreases out.len() - p,
    {
        p += 1;
    }
    if p < out.len() && str_eq(out[p].as_str(), x.as_str()) {
        assert(sm[p as int] == x@);
        return;
    }
    proof {
        if p < sm.len() {
            lemma_text_lt_total(sm[p as int], x@);
        }
    }
    let ghost xv = x@;
    out.insert(p, x);
    proof {
        let n = strings_model(out@);
        assert(n =~= sm.insert(p as int, xv));
        assert forall|a: int, b: int| 0 <= a < b < n.len() implies text_lt(#[trigger] n[a], #[trigger] n[b]) by {
            if b < p {
                assert(text_lt(sm[a], sm[b]));
            } else if b == p {
                assert(text_lt(sm[a], xv));
            } else if a == p {
                assert(n[b] == sm[b - 1]);
                if b - 1 > p {
                    assert(text_lt(sm[p as int], sm[b - 1]));
                    lemma_text_lt_transitive(xv, sm[p as int], sm[b - 1]);
                }
            } else if a < p {
                assert(text_lt(sm[a], sm[b - 1]));
            } else {
                assert(text_lt(sm[a - 1], sm[b - 1]));
            }
        }
        assert forall|y: Seq<char>| n.contains(y) <==> (sm.contains(y) || y == xv) by {
            if n.contains(y) {
                let k = choose|k: int| 0 <= k < n.len() && n[k] == y;
                if k < p {
                    assert(sm[k] == y);
                } else if k > p {
                    assert(sm[k - 1] == y);
                }
            }
            if sm.contains(y) {
                let k = choose|k: int| 0 <= k < sm.len() && sm[k] == y;
                if k < p {
                    assert(n[k] == y);
                } else {
                    assert(n[k + 1] == y);
                }
            }
            if y == xv {
                assert(n[p as int] == y);
            }
        }
    }
}

/// The names of `v`, each once, in the order of `str`.
pub fn sorted_unique(v: &Vec<String>) -> (r: Vec<String>)
    ensures
        sorted_set_of(strings_model(r@), strings_model(v@)),
{
    let ghost m = strings_model(v@);
    let mut out: Vec<String> = Vec::new();
    let mut i: usize = 0;
    while i < v.len()
        invariant
            i <= v@.len(),
            m == strings_model(v@),
            sorted_set_of(strings_model(out@), m.take(i as int)),
        decreases v.len() - i,
    {
        insert_sorted(&mut out, v[i].clone());
        proof {
            let t = m.take(i + 1);
            assert(t =~= m.take(i as int).push(v@[i as int]@));
            assert forall|y: Seq<char>| t.contains(y) <==> (m.take(i as int).contains(y) || y == v@[i as int]@) by {
                if t.contains(y) {
                    let k = choose|k: int| 0 <= k < t.len() && t[k] == y;
                    if k < i {
                        assert(m.take(i as int)[k] == y);
                    }
                }
                if m.take(i as int).contains(y) {
                    let k = choose|k: int| 0 <= k < i && m.take(i as int)[k] == y;
                    assert(t[k] == y);
                }
                if y == v@[i as int]@ {
                    assert(t[i as int] == y);
                }
            }
        }
        i += 1;
    }
    assert(m.take(v@.len() as int) =~= m);
    out
}

/// An entry of the custom themes directory: its name, whether it is a
/// regular file or a directory (links not followed), and for a directory
/// whether it holds `<name>.zsh-theme`.
#[derive(Clone, Debug)]
pub struct ThemeEntry {
    pub name: String,
    pub is_file: bool,
    pub is_dir: bool,
    pub nested_theme: bool,
}

/// `s` ends with `w`.
pub open spec fn ends_with(s: Seq<char>, w: Seq<char>) -> bool {
    s.len() >= w.len() && s.subrange(s.len() - w.len(), s.len() as int) == w
}

/// The theme an entry offers: a `.zsh-theme` file by its stem, a directory
/// with a theme file named after it as `<name>/<name>`.
pub open spec fn entry_theme(e: ThemeEntry) -> Option<Seq<char>> {
    let n = e.name@;
    if e.is_file && ends_with(n, ".zsh-theme"@) {
        let stem = strip_all_suffix(n, ".zsh-theme"@);
        if is_component(stem) {
            Some(stem)
        } else {
            None
        }
    } else if e.is_dir && is_component(n) && e.nested_theme {
        Some(n + "/"@ + n)
    } else {
        None
    }
}

/// The themes the entries offer, in order.
pub open spec fn entry_themes(es: Seq<ThemeEntry>) -> Seq<Seq<char>>
    decreases es.len(),
{
    if es.len() == 0 {
        Seq::empty()
    } else {
        match entry_theme(es.last()) {
            Some(t) => entry_themes(es.drop_last()).push(t),
            None => entry_themes(es.drop_last()),
        }
    }
}

/// The custom themes the configuration may choose, each once, in order
/// (see `entry_theme`).
pub fn theme_names(entries: &Vec<ThemeEntry>) -> (r: Vec<String>)
    ensures
        sorted_set_of(strings_model(r@), entry_themes(entries@)),
{
    let suffix = chars_of(".zsh-theme");
    let mut found: Vec<String> = Vec::new();
    let mut i: usize = 0;
    while i < entries.len()
        invariant
            i <= entries@.len(),
            suffix@ == ".zsh-theme"@,
            strings_model(found@) == entry_themes(entries@.take(i as int)),
        decreases entries.len() - i,
    {
        proof {
            reveal_strlit(".zsh-theme");
        }
        let ghost t = entries@.take(i + 1);
        assert(t.drop_last() =~= entries@.take(i as int));
        assert(t.last() == entries@[i as int]);
        let e = &entries[i];
        let n = chars_of(e.name.as_str());
        let ghost before = strings_model(found@);
        if e.is_file && n.len() >= 10 && starts_with_at_exec(&n, n.len() - 10, &suffix) {
            let stem = strip_all_suffix_exec(n, &suffix);
            let stem = string_of(&stem);
            if component(stem.as_str()) {
                found.push(stem);
                assert(strings_model(found@) =~= before.push(entry_theme(entries@[i as int])->0));
            }
        } else if e.is_dir && component(e.name.as_str()) && e.nested_theme {
            let mut v = chars_of(e.name.as_str());
            extend_str(&mut v, "/");
            extend_str(&mut v, e.name.as_str());
            found.push(string_of(&v));
            assert(strings_model(found@) =~= before.push(entry_theme(entries@[i as int])->0));
        }
        i += 1;
    }
    assert(entries@.take(entries@.len() as int) =~= entries@);
    sorted_unique(&found)
}

/// The items are in the order of their names (equal names in any order).
pub open spec fn sorted_by_name(r: Seq<CatalogItem>) -> bool {
    forall|i: int, j: int| 0 <= i < j < r.len() ==> !text_lt(#[trigger] r[j].name@, #[trigger] r[i].name@)
}

/// The official plugin catalog, sorted by name: the items whose names are
/// plain components, the others dropped.
pub fn catalog(items: Vec<CatalogItem>) -> (r: Vec<CatalogItem>)
    ensures
        sorted_by_name(r@),
        r@.to_multiset() == items@.filter(|c: CatalogItem| is_component(c.name@)).to_multiset(),
{
    let ghost keep = |c: CatalogItem| is_component(c.name@);
    let mut out: Vec<CatalogItem> = Vec::new();
    let mut i: usize = 0;
    proof {
        reveal(Seq::filter);
        assert(items@.take(0).filter(keep) =~= Seq::<CatalogItem>::empty());
        assert(out@ =~= Seq::<CatalogItem>::empty());
    }
    while i < items.len()
        invariant
            i <= items@.len(),
            keep == (|c: CatalogItem| is_component(c.name@)),
            sorted_by_name(out@),
            out@.to_multiset() == items@.take(i as int).filter(keep).to_multiset(),
        decreases items.len() - i,
    {
        broadcast use vstd::seq_lib::group_to_multiset_ensures;
        let ghost t = items@.take(i + 1);
        assert(t.drop_last() =~= items@.take(i as int));
        assert(t.last() == items@[i as int]);
        proof {
            reveal(Seq::filter);
            assert(t.filter(keep) == if keep(t.last()) {
                t.drop_last().filter(keep).push(t.last())
            } else {
                t.drop_last().filter(keep)
            });
        }
        let x = items[i].clone();
        assert(x == items@[i as int]);
        if component(x.name.as_str()) {
            let mut p: usize = 0;
            while p < out.len() && !text_less(x.name.as_str(), out[p].name.as_str())
                invariant
                    p <= out@.len(),
                    forall|k: int| 0 <= k < p ==> !text_lt(x.name@, #[trigger] out@[k].name@),
                decreases out.len() - p,
            {
                p += 1;
            }
            let ghost old_out = out@;
            let ghost xv = x;
            out.insert(p, x);
            proof {
                let n = out@;
                assert(n =~= old_out.insert(p as int, xv));
                vstd::seq_lib::to_multiset_insert(old_out, p as int, xv);
                assert forall|a: int, b: int| 0 <= a < b < n.len() implies !text_lt(#[trigger] n[b].name@, #[trigger] n[a].name@) by {
                    if b < p {
                        assert(!text_lt(old_out[b].name@, old_out[a].name@));
                    } else if b == p {
                        assert(!text_lt(xv.name@, old_out[a].name@));
                        lemma_text_lt_total(xv.name@, old_out[a].name@);
                        lemma_text_lt_asymmetric(xv.name@, old_out[a].name@);
                    } else if a == p {
                        assert(n[b] == old_out[b - 1]);
                        assert(text_lt(xv.name@, old_out[p as int].name@));
                        if b - 1 > p {
                            assert(!text_lt(old_out[b - 1].name@, old_out[p as int].name@));
                            lemma_text_lt_transitive(old_out[b - 1].name@, xv.name@, old_out[p as int].name@);
                        }
                        lemma_text_lt_asymmetric(xv.name@, old_out[b - 1].name@);
                    } else if a < p {
                        assert(!text_lt(old_out[b - 1].name@, old_out[a].name@));
                    } else {
                        assert(!text_lt(old_out[b - 1].name@, old_out[a - 1].name@));
                    }
                }
            }
        }
        i += 1;
    }
    assert(items@.take(items@.len() as int) =~= items@);
    out
}


/// Whether the canonical path `p` is `root` or lies under it (see `under`).
pub fn is_under(root: &str, p: &str) -> (r: bool)
    ensures
        r == under(root@, p@),
{
    let dv = chars_of(root);
    let cv = chars_of(p);
    let prefixed = starts_with_at_exec(&cv, 0, &dv);
    str_eq(p, root) || (prefixed && dv.len() > 0 && dv[dv.len() - 1] == '/') || (prefixed && cv.len()
        > dv.len() && cv[dv.len()] == '/')
}

/// A README text is shown when it is not blank.
pub fn usable_readme(text: String) -> (r: Option<String>)
    ensures
        trim(text@).len() > 0 ==> r == Some(text),
        trim(text@).len() == 0 ==> r is None,
{
    let v = chars_of(text.as_str());
    let t = trim_chars(&v);
    if t.len() > 0 {
        Some(text)
    } else {
        None
    }
}

impl Manager {
    /// The READMEs that may describe plugin `name`, each with the directory
    /// it must lie under: the official one, then the custom one.
    pub fn readme_paths(&self, name: &str) -> (r: Result<Vec<(String, String)>, String>)
        ensures
            !is_component(name@) ==> (r matches Err(e) && e@ == "Invalid plugin name"@),
            is_component(name@) ==> (r matches Ok(v) && v@.len() == 2 && v@[0].0@ == path_join(
                path_join(path_join(self.env.zsh@, "plugins"@), name@),
                "README.md"@,
            ) && v@[0].1 == self.env.zsh && v@[1].0@ == path_join(
                path_join(path_join(self.env.custom@, "plugins"@), name@),
                "README.md"@,
            ) && v@[1].1 == self.env.custom),
    {
        if !component(name) {
            return Err(owned("Invalid plugin name"));
        }
        let a = join(self.env.zsh.as_str(), "plugins");
        let a = join(a.as_str(), name);
        let a = join(a.as_str(), "README.md");
        let b = join(self.env.custom.as_str(), "plugins");
        let b = join(b.as_str(), name);
        let b = join(b.as_str(), "README.md");
        let mut v: Vec<(String, String)> = Vec::new();
        v.push((a, self.env.zsh.clone()));
        v.push((b, self.env.custom.clone()));
        Ok(v)
    }

    /// Records a restored backup and answers with its outcome; the new
    /// backup is of the configuration it replaced.
    pub fn applied_restore(&mut self, id: &str, backup: String) -> (a: Applied)
        ensures
            final(self).journal@.drop_last() == old(self).journal@,
            final(self).journal@.len() == old(self).journal@.len() + 1,
            entry_is(
                final(self).journal@.last(),
                id@,
                "backup_restore"@,
                "restored"@,
                seq![old(self).env.config],
                Some(backup),
                None,
                None,
                None,
                false,
                None,
            ),
            a.id@ == id@,
            a.status@ == "backup restored"@,
            a.backup == Some(backup),
            a.commit is None,
            !a.undo_available,
            final(self).env == old(self).env,
            final(self).plans@ == old(self).plans@,
            final(self).journal_path == old(self).journal_path,
    {
        let mut files: Vec<String> = Vec::new();
        files.push(self.env.config.clone());
        assert(files@ =~= seq![self.env.config]);
        self.record(id, "backup_restore", "restored", files, Some(backup.clone()), None, None, None, false, None);
        proof {
            reveal_strlit("backup_restore");
            reveal_strlit("restored");
        }
        Applied {
            id: owned(id),
            status: owned("backup restored"),
            backup: Some(backup),
            commit: None,
            undo_available: false,
        }
    }
}


/// A link that may be opened goes to github.com over HTTPS and has no
/// `..`, query, fragment, backslash or white space after the host.
pub proof fn opened_links_stay_on_github(url: Seq<char>)
    requires
        github_link(url) is Ok,
    ensures
        ({
            let x = github_link(url)->Ok_0;
            let prefix = "https://github.com/"@;
            let rest = x.subrange(prefix.len() as int, x.len() as int);
            &&& starts_with_at(x, 0, prefix)
            &&& !holds_dots(rest)
            &&& !holds_any(rest, seq!['?', '#', '\\', ' ', '\n', '\r', '\t'])
        }),
{
    let t = trim(url);
    let prefix = "https://github.com/"@;
    let rest = t.subrange(prefix.len() as int, t.len() as int);
    let x = prefix + rest;
    assert(x.subrange(0, prefix.len() as int) =~= prefix);
    assert(x.subrange(prefix.len() as int, x.len() as int) =~= rest);
}


/// Undoing an install needs the checkout it quarantines.
pub fn undo_install_present(is_dir: bool) -> (r: Result<(), String>)
    ensures
        is_dir ==> r is Ok,
        !is_dir ==> (r matches Err(e) && e@ == "Installed checkout is missing"@),
{
    if is_dir {
        Ok(())
    } else {
        Err(owned("Installed checkout is missing"))
    }
}

/// Undoing a removal moves the checkout back only to a free place.
pub fn undo_remove_free(occupied: bool) -> (r: Result<(), String>)
    ensures
        !occupied ==> r is Ok,
        occupied ==> (r matches Err(e) && e@ == "Plugin destination is no longer empty"@),
{
    if occupied {
        Err(owned("Plugin destination is no longer empty"))
    } else {
        Ok(())
    }
}


/// An applied configuration change journals the backup that undoing it
/// writes back.
pub proof fn applied_config_is_undoable(h: History, id: Seq<char>, files: Seq<String>, backup: String)
    requires
        entry_is(h, id, "configuration"@, "applied"@, files, Some(backup), None, None, None, true, None),
    ensures
        h.undo_available,
        undo_step_of(h) == Ok::<UndoStep, Seq<char>>(UndoStep::Configuration { backup }),
{
}

/// An applied install journals the repository whose checkout undoing it
/// quarantines.
pub proof fn applied_install_is_undoable(
    h: History,
    id: Seq<char>,
    files: Seq<String>,
    backup: Option<String>,
    repo: Repo,
    commit: String,
)
    requires
        entry_is(h, id, "install"@, "applied"@, files, backup, Some(repo), Some(commit), None, true, None),
    ensures
        h.undo_available,
        undo_step_of(h) == Ok::<UndoStep, Seq<char>>(UndoStep::Install { repo }),
{
    reveal_strlit("install");
    reveal_strlit("configuration");
    assert("install"@[0] != "configuration"@[0]);
}

/// An applied removal journals where the checkout was, where it was
/// quarantined and the configuration backup, all that undoing it needs.
pub proof fn applied_remove_is_undoable(
    h: History,
    id: Seq<char>,
    path: String,
    quarantine: String,
    backup: String,
    repo: Repo,
    commit: String,
)
    requires
        entry_is(h, id, "remove"@, "applied"@, seq![path, quarantine], Some(backup), Some(repo), Some(commit), None, true, None),
    ensures
        h.undo_available,
        undo_step_of(h) == Ok::<UndoStep, Seq<char>>(
            UndoStep::Remove { checkout: path, quarantine, backup: Some(backup) },
        ),
{
    reveal_strlit("remove");
    reveal_strlit("install");
    reveal_strlit("configuration");
    assert("remove"@[0] != "configuration"@[0]);
    assert("remove"@[0] != "install"@[0]);
}

/// An applied update journals the commit it left and the one it reached,
/// so undoing it checks out the first where the second is.
pub proof fn applied_update_is_undoable(
    h: History,
    id: Seq<char>,
    files: Seq<String>,
    repo: Repo,
    got: String,
    previous: String,
)
    requires
        entry_is(h, id, "update"@, "applied"@, files, None, Some(repo), Some(got), Some(previous), true, None),
    ensures
        h.undo_available,
        undo_step_of(h) == Ok::<UndoStep, Seq<char>>(
            UndoStep::Update { repo, previous, target: got },
        ),
{
    reveal_strlit("update");
    reveal_strlit("remove");
    reveal_strlit("install");
    reveal_strlit("configuration");
    assert("update"@[0] != "configuration"@[0]);
    assert("update"@[0] != "install"@[0]);
    assert("update"@[0] != "remove"@[0]);
}

/// Undo finds an operation by its id: when the newest journal entry's id
/// is new, undoing that id starts on that entry.
pub proof fn undo_finds_the_new_entry(before: Seq<History>, h: History)
    requires
        forall|k: int| 0 <= k < before.len() ==> (#[trigger] before[k]).id@ != h.id@,
    ensures
        undo_start(before.push(h), h.id@) == if !h.undo_available {
            Err::<(int, UndoStep), Seq<char>>("This operation cannot be restored automatically"@)
        } else {
            match undo_step_of(h) {
                Ok(s) => Ok((before.len() as int, s)),
                Err(e) => Err(e),
            }
        },
{
    let after = before.push(h);
    lemma_first_entry_bounds(after, h.id@, 0);
    let i = first_entry(after, h.id@, 0);
    if i < before.len() {
        assert(after[i] == before[i]);
    }
    assert(after[before.len() as int] == h);
}


/// `a` is a copy of `b`.
pub open spec fn same_entry(a: History, b: History) -> bool {
    a == History { files: a.files, ..b } && a.files@ == b.files@
}

impl Clone for History {
    fn clone(&self) -> (r: History)
        ensures
            same_entry(r, *self),
    {
        History {
            id: self.id.clone(),
            at: self.at,
            operation: self.operation.clone(),
            status: self.status.clone(),
            files: clone_strings(&self.files),
            backup: self.backup.clone(),
            undo_available: self.undo_available,
            repo: self.repo.clone(),
            commit: self.commit.clone(),
            previous_commit: self.previous_commit.clone(),
            error: self.error.clone(),
        }
    }
}

/// What answering a request takes: an answer the manager gives at once, or
/// work on the machine or the network that the request is passed on for.
pub enum Step {
    Done(Result<Response, String>),
    Perform(Request),
}

/// The result of the work a request was passed on for.
pub enum Outcome {
    /// The configuration as read.
    Snapshot(Snapshot),
    /// The machine's capabilities.
    Capability(Capability),
    /// A preview or an applied plan, already answered.
    Answer(Response),
    /// A page of search results.
    Search(Search),
    /// A text to show (a README).
    Text(String),
    /// The token was saved or removed.
    TokenSaved,
    /// Whether a token is stored, or why the store could not be asked.
    Token(Result<bool, String>),
    /// An undone operation or a restored backup.
    Applied(Applied),
    /// The available updates.
    Updates(Vec<UpdateView>),
    /// The backup was deleted.
    BackupDeleted,
    /// The link was opened.
    Opened,
    /// A terminal was opened.
    OpenedTerminal,
}

impl Manager {
    /// Starts answering a request. Cancelling and the journal are answered at
    /// once; a link to open is checked first (see `github_link`), and so is
    /// the repository of a README request; anything else is passed on.
    pub fn request(&mut self, r: Request) -> (s: Step)
        ensures
            match r {
                Request::Cancel { plan_id } => s matches Step::Done(Ok(x)) && carries_message(
                    x,
                    "Cancelled"@,
                ) && final(self).plans@ == old(self).plans@.remove(plan_id@),
                Request::History => final(self).plans@ == old(self).plans@ && (s matches Step::Done(
                    Ok(x),
                ) && is_blank(Response { history: None, ..x }) && (x.history matches Some(h)
                    && h@.len() == old(self).journal@.len() && (forall|k: int|
                    0 <= k < h@.len() ==> same_entry(#[trigger] h@[k], old(self).journal@[k])))),
                Request::OpenUrl { url } => final(self).plans@ == old(self).plans@ && match github_link(
                    url@,
                ) {
                    Ok(u) => s matches Step::Perform(Request::OpenUrl { url: v }) && v@ == u,
                    Err(e) => s matches Step::Done(Err(x)) && x@ == e,
                },
                Request::Readme { owner, repository } => final(self).plans@ == old(self).plans@
                    && match repo_parse(owner@ + "/"@ + repository@) {
                    Some(_) => s == Step::Perform(r),
                    None => s matches Step::Done(Err(x)) && x@
                        == "Use a GitHub owner/repository or HTTPS repository URL"@,
                },
                _ => s == Step::Perform(r) && final(self).plans@ == old(self).plans@,
            },
            final(self).env == old(self).env,
            final(self).journal == old(self).journal,
            final(self).journal_path == old(self).journal_path,
    {
        match r {
            Request::Cancel { plan_id } => Step::Done(Ok(self.cancel(plan_id.as_str()))),
            Request::History => {
                let mut h: Vec<History> = Vec::new();
                let mut i: usize = 0;
                while i < self.journal.len()
                    invariant
                        i <= self.journal@.len(),
                        h@.len() == i,
                        forall|k: int| 0 <= k < i ==> same_entry(#[trigger] h@[k], self.journal@[k]),
                    decreases self.journal.len() - i,
                {
                    h.push(self.journal[i].clone());
                    i += 1;
                }
                Step::Done(Ok(Response { history: Some(h), ..Response::blank() }))
            },
            Request::OpenUrl { url } => match safe_github_url(url.as_str()) {
                Ok(u) => Step::Perform(Request::OpenUrl { url: u }),
                Err(e) => Step::Done(Err(e)),
            },
            Request::Readme { owner, repository } => {
                match preview_repo(owner.as_str(), repository.as_str()) {
                    Ok(_) => Step::Perform(Request::Readme { owner, repository }),
                    Err(e) => Step::Done(Err(e)),
                }
            },
            other => Step::Perform(other),
        }
    }
}

/// `r` is the answer to the outcome `o`: the outcome in its own field
/// and nothing else, or the message that confirms it.
pub open spec fn answered_by(o: Outcome, r: Response) -> bool {
    match o {
        Outcome::Snapshot(x) => is_blank(Response { snapshot: None, ..r }) && r.snapshot == Some(x),
        Outcome::Capability(x) => is_blank(Response { capability: None, ..r }) && r.capability
            == Some(x),
        Outcome::Answer(x) => r == x,
        Outcome::Search(x) => is_blank(Response { search: None, ..r }) && r.search == Some(x),
        Outcome::Text(x) => carries_message(r, x@),
        Outcome::TokenSaved => carries_message(r, "Token saved in OS credential store"@),
        Outcome::Token(t) => carries_message(
            r,
            match t {
                Ok(true) => "configured"@,
                Ok(false) => "not_configured"@,
                Err(e) => "unavailable: "@ + e@,
            },
        ),
        Outcome::Applied(a) => carries_applied(r, a),
        Outcome::Updates(u) => is_blank(Response { updates: None, ..r }) && r.updates == Some(u),
        Outcome::BackupDeleted => carries_message(r, "Backup deleted"@),
        Outcome::Opened => carries_message(r, "opened"@),
        Outcome::OpenedTerminal => carries_message(r, "opened-terminal"@),
    }
}

/// The answer that the outcome of a request's work gives.
pub fn respond(o: Outcome) -> (r: Response)
    ensures
        answered_by(o, r),
{
    match o {
        Outcome::Snapshot(x) => Response { snapshot: Some(x), ..Response::blank() },
        Outcome::Capability(x) => Response { capability: Some(x), ..Response::blank() },
        Outcome::Answer(x) => x,
        Outcome::Search(x) => Response { search: Some(x), ..Response::blank() },
        Outcome::Text(x) => Response::message(x),
        Outcome::TokenSaved => Response::message(owned("Token saved in OS credential store")),
        Outcome::Token(t) => Response::message(token_status(t)),
        Outcome::Applied(a) => Response::applied(a),
        Outcome::Updates(u) => Response { updates: Some(u), ..Response::blank() },
        Outcome::BackupDeleted => Response::message(owned("Backup deleted")),
        Outcome::Opened => Response::message(owned("opened")),
        Outcome::OpenedTerminal => Response::message(owned("opened-terminal")),
    }
}

/// The status of an installed checkout that is neither a loadable plugin
/// nor a theme: it is left out of the configuration.
pub fn plain_checkout_status() -> (r: String)
    ensures
        r@ == "installed checkout; not enabled because it is not an Oh My Zsh plugin"@,
{
    owned("installed checkout; not enabled because it is not an Oh My Zsh plugin")
}


/// The outcome that answers a request of this kind: the snapshot for a
/// read, the capabilities, an answer already made for previews and applies,
/// search results, a text for a README, the token's state, an outcome for
/// an undo or a restored backup, the updates, and a confirmation for the
/// rest. Cancelling and the journal are answered at once (see `request`).
pub open spec fn fits(r: Request, o: Outcome) -> bool {
    match r {
        Request::Read => o is Snapshot,
        Request::Capability => o is Capability,
        Request::PreviewConfig { .. } => o matches Outcome::Answer(x) && carries_preview(x),
        Request::PreviewPlugin { .. } => o matches Outcome::Answer(x) && carries_preview(x),
        Request::Apply { .. } => o matches Outcome::Answer(x) && is_blank(Response { applied: None, ..x })
            && x.applied is Some,
        Request::Search { .. } => o is Search,
        Request::Readme { .. } => o is Text,
        Request::PluginReadme { .. } => o is Text,
        Request::SetToken { .. } => o is TokenSaved,
        Request::TokenStatus => o is Token,
        Request::Undo { .. } => o is Applied,
        Request::RestoreBackup { .. } => o is Applied,
        Request::Updates => o is Updates,
        Request::DeleteBackup { .. } => o is BackupDeleted,
        Request::OpenUrl { .. } => o is Opened,
        Request::OpenTerminal => o is OpenedTerminal,
        Request::Cancel { .. } => false,
        Request::History => false,
    }
}

/// The part of a response that answers a request of this kind, and
/// nothing else: the snapshot, the capabilities, a preview, an outcome,
/// search results, the updates, or a message; never an inventory.
pub open spec fn answers(r: Request, x: Response) -> bool {
    match r {
        Request::Read => is_blank(Response { snapshot: None, ..x }) && x.snapshot is Some,
        Request::Capability => is_blank(Response { capability: None, ..x }) && x.capability is Some,
        Request::PreviewConfig { .. } => carries_preview(x),
        Request::PreviewPlugin { .. } => carries_preview(x),
        Request::Apply { .. } => is_blank(Response { applied: None, ..x }) && x.applied is Some,
        Request::Undo { .. } => is_blank(Response { applied: None, ..x }) && x.applied is Some,
        Request::RestoreBackup { .. } => is_blank(Response { applied: None, ..x }) && x.applied is Some,
        Request::Search { .. } => is_blank(Response { search: None, ..x }) && x.search is Some,
        Request::Updates => is_blank(Response { updates: None, ..x }) && x.updates is Some,
        Request::History => is_blank(Response { history: None, ..x }) && x.history is Some,
        _ => is_blank(Response { message: None, ..x }) && x.message is Some,
    }
}

/// Each request kind is answered in its own part of the response: what
/// the manager answers at once, and what an outcome that fits the request
/// is answered with.
pub proof fn requests_fill_their_field(r: Request, o: Outcome, x: Response)
    ensures
        fits(r, o) && answered_by(o, x) ==> answers(r, x),
{
}

/// Applying a preview whose id is not held is refused and changes no plan;
/// taking a held plan out leaves no plan under its id, so a preview is
/// applied at most once; and a failed apply that puts it back restores the
/// plans, so the same preview can be tried again (see `take_plan` and
/// `finish_apply`).
pub proof fn applying_a_preview(before: Map<Seq<char>, Plan>, id: Seq<char>)
    ensures
        !before.contains_key(id) ==> before.remove(id) == before,
        !before.remove(id).contains_key(id),
        before.contains_key(id) ==> before.remove(id).insert(id, before[id]) == before,
{
    assert(!before.contains_key(id) ==> before.remove(id) =~= before);
    assert(before.contains_key(id) ==> before.remove(id).insert(id, before[id]) =~= before);
}

} // verus!

//! The registry of language servers: what is known of each server, the
//! diagnostics it reported and the files opened through it, and the
//! routing of tool actions to a server. Running the server processes is
//! the caller's part; the registry records whether one runs.
use vstd::prelude::*;

use crate::lsp_discovery::LspServerDescriptor;
use crate::lsp_parse::{extension_of, path_extension_text};
use crate::lsp_types::{action_named, status_text, LspAction, LspDiagnostic, LspServerState, LspServerStatus};
use crate::session::copy_option_string;
use crate::text::{clone_strings, owned, push_str, str_eq, string_from_chars};

verus! {

/// One registered server.
pub struct RegistryEntry {
    pub state: LspServerState,
    /// How to start the server, when it was registered with one.
    pub descriptor: Option<LspServerDescriptor>,
    /// Whether a server process is running.
    pub running: bool,
}

/// The language servers known to a session.
pub struct LspRegistry {
    entries: Vec<RegistryEntry>,
    open_files: Vec<String>,
}

/// The language a registry serves a file extension with.
pub open spec fn registry_language(ext: Seq<char>) -> Option<Seq<char>> {
    if ext == "rs"@ {
        Some("rust"@)
    } else if ext == "ts"@ || ext == "tsx"@ {
        Some("typescript"@)
    } else if ext == "js"@ || ext == "jsx"@ {
        Some("javascript"@)
    } else if ext == "py"@ {
        Some("python"@)
    } else if ext == "go"@ {
        Some("go"@)
    } else if ext == "java"@ {
        Some("java"@)
    } else if ext == "c"@ || ext == "h"@ {
        Some("c"@)
    } else if ext == "cpp"@ || ext == "hpp"@ || ext == "cc"@ {
        Some("cpp"@)
    } else if ext == "rb"@ {
        Some("ruby"@)
    } else if ext == "lua"@ {
        Some("lua"@)
    } else {
        None
    }
}

/// The language of a file path, by its extension.
pub open spec fn path_language(path: Seq<char>) -> Option<Seq<char>> {
    match path_extension_text(path) {
        Some(e) => registry_language(e),
        None => None,
    }
}

/// Position of the entry for a language.
pub open spec fn entry_index(entries: Seq<RegistryEntry>, language: Seq<char>) -> Option<int> {
    if exists|i: int| 0 <= i < entries.len() && #[trigger] entries[i].state.language@ == language {
        Some(choose|i: int| 0 <= i < entries.len() && #[trigger] entries[i].state.language@ == language)
    } else {
        None
    }
}

/// The diagnostics of all entries that concern `path`, entry by entry.
pub open spec fn diagnostics_for(entries: Seq<RegistryEntry>, path: Seq<char>) -> Seq<LspDiagnostic>
    decreases entries.len(),
{
    if entries.len() == 0 {
        seq![]
    } else {
        diagnostics_for(entries.drop_last(), path) + entries.last().state.diagnostics@.filter(
            |d: LspDiagnostic| d.path@ == path,
        )
    }
}

/// The registry after its entry for a language is replaced by `e`, or `e`
/// added when there was none.
pub open spec fn with_entry(entries: Seq<RegistryEntry>, e: RegistryEntry) -> Seq<RegistryEntry> {
    match entry_index(entries, e.state.language@) {
        Some(i) => entries.update(i, e),
        None => entries.push(e),
    }
}

pub open spec fn not_found_message(language: Seq<char>) -> Seq<char> {
    "LSP server not found for language: "@ + language
}

/// A fresh state for a server.
pub open spec fn fresh_state(s: LspServerState, language: Seq<char>, status: LspServerStatus, root_path: Option<Seq<char>>, capabilities: Seq<String>) -> bool {
    &&& s.language@ == language
    &&& s.status == status
    &&& match (s.root_path, root_path) {
        (Some(a), Some(b)) => a@ == b,
        (None, None) => true,
        _ => false,
    }
    &&& s.capabilities@ == capabilities
    &&& s.diagnostics@.len() == 0
}

fn copy_diagnostic(d: &LspDiagnostic) -> (r: LspDiagnostic)
    ensures
        r == *d,
{
    LspDiagnostic {
        path: d.path.clone(),
        line: d.line,
        character: d.character,
        severity: d.severity.clone(),
        message: d.message.clone(),
        source: copy_option_string(&d.source),
    }
}

fn copy_diagnostics(v: &Vec<LspDiagnostic>) -> (r: Vec<LspDiagnostic>)
    ensures
        r@ == v@,
{
    let mut r: Vec<LspDiagnostic> = Vec::new();
    let mut i: usize = 0;
    while i < v.len()
        invariant
            i <= v.len(),
            r@ == v@.take(i as int),
        decreases v.len() - i,
    {
        r.push(copy_diagnostic(&v[i]));
        i += 1;
        assert(r@ =~= v@.take(i as int));
    }
    assert(v@.take(v.len() as int) =~= v@);
    r
}

/// Two states that hold the same values.
pub open spec fn same_state(a: LspServerState, b: LspServerState) -> bool {
    &&& a.language@ == b.language@
    &&& a.status == b.status
    &&& a.root_path == b.root_path
    &&& a.capabilities@ == b.capabilities@
    &&& a.diagnostics@ == b.diagnostics@
}

fn copy_state(s: &LspServerState) -> (r: LspServerState)
    ensures
        same_state(r, *s),
{
    LspServerState {
        language: s.language.clone(),
        status: s.status,
        root_path: copy_option_string(&s.root_path),
        capabilities: clone_strings(&s.capabilities),
        diagnostics: copy_diagnostics(&s.diagnostics),
    }
}

fn not_found(language: &str) -> (r: String)
    ensures
        r@ == not_found_message(language@),
{
    let mut v = crate::text::chars_of("LSP server not found for language: ");
    push_str(&mut v, language);
    string_from_chars(&v)
}

/// The language the registry serves a path with.
pub fn language_for_path(path: &str) -> (r: Option<String>)
    ensures
        match r {
            Some(l) => path_language(path@) == Some(l@),
            None => path_language(path@) is None,
        },
{
    let ext = match extension_of(path) {
        Some(e) => e,
        None => {
            return None;
        },
    };
    let e = ext.as_str();
    if str_eq(e, "rs") {
        Some(owned("rust"))
    } else if str_eq(e, "ts") || str_eq(e, "tsx") {
        Some(owned("typescript"))
    } else if str_eq(e, "js") || str_eq(e, "jsx") {
        Some(owned("javascript"))
    } else if str_eq(e, "py") {
        Some(owned("python"))
    } else if str_eq(e, "go") {
        Some(owned("go"))
    } else if str_eq(e, "java") {
        Some(owned("java"))
    } else if str_eq(e, "c") || str_eq(e, "h") {
        Some(owned("c"))
    } else if str_eq(e, "cpp") || str_eq(e, "hpp") || str_eq(e, "cc") {
        Some(owned("cpp"))
    } else if str_eq(e, "rb") {
        Some(owned("ruby"))
    } else if str_eq(e, "lua") {
        Some(owned("lua"))
    } else {
        None
    }
}

impl LspRegistry {
    /// No language is registered twice.
    pub closed spec fn wf(&self) -> bool {
        forall|i: int, j: int|
            0 <= i < self.entries@.len() && 0 <= j < self.entries@.len() && i != j
                ==> #[trigger] self.entries@[i].state.language@ != #[trigger] self.entries@[j].state.language@
    }

    /// The registered servers, in registration order.
    pub closed spec fn entries(&self) -> Seq<RegistryEntry> {
        self.entries@
    }

    /// The paths of the files opened through the registry.
    pub closed spec fn open_files(&self) -> Seq<Seq<char>> {
        crate::text::string_views(self.open_files@)
    }

    pub fn new() -> (r: Self)
        ensures
            r.wf(),
            r.entries().len() == 0,
            r.open_files().len() == 0,
    {
        let r = LspRegistry { entries: Vec::new(), open_files: Vec::new() };
        assert(r.open_files() =~= Seq::<Seq<char>>::empty());
        r
    }

    fn position(&self, language: &str) -> (r: Option<usize>)
        requires
            self.wf(),
        ensures
            match r {
                Some(i) => entry_index(self.entries(), language@) == Some(i as int) && i < self.entries().len(),
                None => entry_index(self.entries(), language@) is None,
            },
    {
        let mut i: usize = 0;
        while i < self.entries.len()
            invariant
                i <= self.entries@.len(),
                self.wf(),
                forall|j: int| 0 <= j < i ==> #[trigger] self.entries@[j].state.language@ != language@,
            decreases self.entries.len() - i,
        {
            if str_eq(self.entries[i].state.language.as_str(), language) {
                proof {
                    assert(self.entries@[i as int].state.language@ == language@);
                    let k = choose|k: int|
                        0 <= k < self.entries@.len() && #[trigger] self.entries@[k].state.language@ == language@;
                    assert(0 <= k < self.entries@.len());
                    if k != i {
                        assert(self.entries@[k].state.language@ == self.entries@[i as int].state.language@);
                        assert(self.entries@[k].state.language@ != self.entries@[i as int].state.language@);
                    }
                }
                return Some(i);
            }
            i += 1;
        }
        None
    }

    fn put(&mut self, e: RegistryEntry)
        requires
            old(self).wf(),
        ensures
            final(self).wf(),
            final(self).entries() == with_entry(old(self).entries(), e),
            final(self).open_files() == old(self).open_files(),
    {
        let ghost language = e.state.language@;
        match self.position(e.state.language.as_str()) {
            Some(i) => {
                self.entries.set(i, e);
                assert forall|a: int, b: int|
                    0 <= a < self.entries@.len() && 0 <= b < self.entries@.len() && a != b
                        implies #[trigger] self.entries@[a].state.language@ != #[trigger] self.entries@[b].state.language@ by {
                    if a != i && b != i {
                        assert(old(self).entries@[a] == self.entries@[a]);
                        assert(old(self).entries@[b] == self.entries@[b]);
                    } else if a == i {
                        assert(old(self).entries@[b] == self.entries@[b]);
                        assert(old(self).entries@[i as int].state.language@ == language);
                    } else {
                        assert(old(self).entries@[a] == self.entries@[a]);
                        assert(old(self).entries@[i as int].state.language@ == language);
                    }
                }
            },
            None => {
                self.entries.push(e);
                assert forall|a: int, b: int|
                    0 <= a < self.entries@.len() && 0 <= b < self.entries@.len() && a != b
                        implies #[trigger] self.entries@[a].state.language@ != #[trigger] self.entries@[b].state.language@ by {
                    let n = old(self).entries@.len() as int;
                    if a < n && b < n {
                        assert(old(self).entries@[a] == self.entries@[a]);
                        assert(old(self).entries@[b] == self.entries@[b]);
                    } else if a == n {
                        assert(old(self).entries@[b] == self.entries@[b]);
                    } else {
                        assert(old(self).entries@[a] == self.entries@[a]);
                    }
                }
            },
        }
    }

    /// Registers a server, replacing any registration of its language; its
    /// process is started later, on first use or by `start`.
    pub fn register(
        &mut self,
        language: &str,
        status: LspServerStatus,
        root_path: Option<&str>,
        capabilities: Vec<String>,
    )
        requires
            old(self).wf(),
        ensures
            final(self).wf(),
            exists|e: RegistryEntry|
                {
                    &&& fresh_state(e.state, language@, status, match root_path {
                        Some(p) => Some(p@),
                        None => None,
                    }, capabilities@)
                    &&& e.descriptor is None
                    &&& !e.running
                    &&& final(self).entries() == with_entry(old(self).entries(), e)
                },
            final(self).open_files() == old(self).open_files(),
    {
        self.register_entry(language, status, root_path, capabilities, None);
    }

    /// Registers a server with the descriptor that starts it.
    pub fn register_with_descriptor(
        &mut self,
        language: &str,
        status: LspServerStatus,
        root_path: Option<&str>,
        capabilities: Vec<String>,
        descriptor: LspServerDescriptor,
    )
        requires
            old(self).wf(),
        ensures
            final(self).wf(),
            exists|e: RegistryEntry|
                {
                    &&& fresh_state(e.state, language@, status, match root_path {
                        Some(p) => Some(p@),
                        None => None,
                    }, capabilities@)
                    &&& e.descriptor == Some(descriptor)
                    &&& !e.running
                    &&& final(self).entries() == with_entry(old(self).entries(), e)
                },
            final(self).open_files() == old(self).open_files(),
    {
        self.register_entry(language, status, root_path, capabilities, Some(descriptor));
    }

    fn register_entry(
        &mut self,
        language: &str,
        status: LspServerStatus,
        root_path: Option<&str>,
        capabilities: Vec<String>,
        descriptor: Option<LspServerDescriptor>,
    )
        requires
            old(self).wf(),
        ensures
            final(self).wf(),
            exists|e: RegistryEntry|
                {
                    &&& fresh_state(e.state, language@, status, match root_path {
                        Some(p) => Some(p@),
                        None => None,
                    }, capabilities@)
                    &&& e.descriptor == descriptor
                    &&& !e.running
                    &&& final(self).entries() == with_entry(old(self).entries(), e)
                },
            final(self).open_files() == old(self).open_files(),
    {
        let state = LspServerState {
            language: owned(language),
            status,
            root_path: match root_path {
                Some(p) => Some(owned(p)),
                None => None,
            },
            capabilities,
            diagnostics: Vec::new(),
        };
        let e = RegistryEntry { state, descriptor, running: false };
        let ghost ge = e;
        self.put(e);
        assert(fresh_state(ge.state, language@, status, match root_path {
            Some(p) => Some(p@),
            None => None,
        }, capabilities@));
    }

    /// What is known of the server for a language.
    pub fn get(&self, language: &str) -> (r: Option<LspServerState>)
        requires
            self.wf(),
        ensures
            match entry_index(self.entries(), language@) {
                Some(i) => r matches Some(st) && same_state(st, self.entries()[i].state),
                None => r is None,
            },
    {
        match self.position(language) {
            Some(i) => Some(copy_state(&self.entries[i].state)),
            None => None,
        }
    }

    /// The registration of a language, with its descriptor and whether its
    /// process runs.
    pub fn entry(&self, language: &str) -> (r: Option<&RegistryEntry>)
        requires
            self.wf(),
        ensures
            match entry_index(self.entries(), language@) {
                Some(i) => r == Some(&self.entries()[i]),
                None => r is None,
            },
    {
        match self.position(language) {
            Some(i) => Some(&self.entries[i]),
            None => None,
        }
    }

    /// The server for a file, by the language of its extension.
    pub fn find_server_for_path(&self, path: &str) -> (r: Option<LspServerState>)
        requires
            self.wf(),
        ensures
            match path_language(path@) {
                Some(l) => match entry_index(self.entries(), l) {
                    Some(i) => r matches Some(st) && same_state(st, self.entries()[i].state),
                    None => r is None,
                },
                None => r is None,
            },
    {
        match language_for_path(path) {
            Some(l) => self.get(l.as_str()),
            None => None,
        }
    }

    /// Every registered server, in registration order.
    pub fn list_servers(&self) -> (r: Vec<LspServerState>)
        ensures
            r@.len() == self.entries().len(),
            forall|k: int| 0 <= k < r@.len() ==> same_state(#[trigger] r@[k], self.entries()[k].state),
    {
        let mut r: Vec<LspServerState> = Vec::new();
        let mut i: usize = 0;
        while i < self.entries.len()
            invariant
                i <= self.entries@.len(),
                r@.len() == i,
                forall|k: int| 0 <= k < i ==> same_state(#[trigger] r@[k], self.entries@[k].state),
            decreases self.entries.len() - i,
        {
            r.push(copy_state(&self.entries[i].state));
            i += 1;
        }
        r
    }

    /// Adds diagnostics to a server.
    pub fn add_diagnostics(&mut self, language: &str, diagnostics: Vec<LspDiagnostic>) -> (r: Result<(), String>)
        requires
            old(self).wf(),
        ensures
            final(self).wf(),
            final(self).open_files() == old(self).open_files(),
            match entry_index(old(self).entries(), language@) {
                Some(i) => r is Ok && changed_at(
                    final(self).entries(),
                    old(self).entries(),
                    i,
                    old(self).entries()[i].state.diagnostics@ + diagnostics@,
                    old(self).entries()[i].running,
                    old(self).entries()[i].state.status,
                ),
                None => r matches Err(m) && m@ == not_found_message(language@) && final(self).entries()
                    == old(self).entries(),
            },
    {
        match self.position(language) {
            Some(i) => {
                let mut e = self.entries.remove(i);
                let mut extra = diagnostics;
                e.state.diagnostics.append(&mut extra);
                self.entries.insert(i, e);
                proof {
                    self.lemma_wf_after_change(*old(self), i as int);
                }
                Ok(())
            },
            None => Err(not_found(language)),
        }
    }

    proof fn lemma_wf_after_change(&self, before: Self, i: int)
        requires
            before.wf(),
            0 <= i < before.entries@.len(),
            self.entries@.len() == before.entries@.len(),
            self.entries@[i].state.language@ == before.entries@[i].state.language@,
            forall|j: int| 0 <= j < self.entries@.len() && j != i ==> self.entries@[j] == before.entries@[j],
        ensures
            self.wf(),
    {
        assert forall|a: int, b: int|
            0 <= a < self.entries@.len() && 0 <= b < self.entries@.len() && a != b
                implies #[trigger] self.entries@[a].state.language@ != #[trigger] self.entries@[b].state.language@ by {
            assert(before.entries@[a].state.language@ != before.entries@[b].state.language@);
            if a != i {
                assert(self.entries@[a] == before.entries@[a]);
            }
            if b != i {
                assert(self.entries@[b] == before.entries@[b]);
            }
        }
    }

    /// Removes every diagnostic of a server.
    pub fn clear_diagnostics(&mut self, language: &str) -> (r: Result<(), String>)
        requires
            old(self).wf(),
        ensures
            final(self).wf(),
            final(self).open_files() == old(self).open_files(),
            match entry_index(old(self).entries(), language@) {
                Some(i) => r is Ok && changed_at(
                    final(self).entries(),
                    old(self).entries(),
                    i,
                    seq![],
                    old(self).entries()[i].running,
                    old(self).entries()[i].state.status,
                ),
                None => r matches Err(m) && m@ == not_found_message(language@) && final(self).entries()
                    == old(self).entries(),
            },
    {
        match self.position(language) {
            Some(i) => {
                let mut e = self.entries.remove(i);
                e.state.diagnostics = Vec::new();
                self.entries.insert(i, e);
                proof {
                    self.lemma_wf_after_change(*old(self), i as int);
                    assert(self.entries@[i as int].state.diagnostics@ =~= Seq::<LspDiagnostic>::empty());
                }
                Ok(())
            },
            None => Err(not_found(language)),
        }
    }

    /// Replaces the diagnostics a server holds for one file by a fresh,
    /// non-empty report: a server's diagnostics for a file are always
    /// complete. An empty report, or a language with no server, leaves the
    /// registry alone.
    pub fn replace_file_diagnostics(&mut self, language: &str, path: &str, diagnostics: Vec<LspDiagnostic>)
        requires
            old(self).wf(),
        ensures
            final(self).wf(),
            final(self).open_files() == old(self).open_files(),
            match entry_index(old(self).entries(), language@) {
                Some(i) if diagnostics@.len() > 0 => changed_at(
                    final(self).entries(),
                    old(self).entries(),
                    i,
                    old(self).entries()[i].state.diagnostics@.filter(|d: LspDiagnostic| d.path@ != path@)
                        + diagnostics@,
                    old(self).entries()[i].running,
                    old(self).entries()[i].state.status,
                ),
                _ => final(self).entries() == old(self).entries(),
            },
    {
        if diagnostics.len() == 0 {
            return;
        }
        match self.position(language) {
            Some(i) => {
                let mut e = self.entries.remove(i);
                let ghost old_diags = e.state.diagnostics@;
                let mut kept: Vec<LspDiagnostic> = Vec::new();
                let mut k: usize = 0;
                while k < e.state.diagnostics.len()
                    invariant
                        k <= e.state.diagnostics@.len(),
                        e.state.diagnostics@ == old_diags,
                        kept@ == old_diags.take(k as int).filter(|d: LspDiagnostic| d.path@ != path@),
                    decreases e.state.diagnostics.len() - k,
                {
                    let d = &e.state.diagnostics[k];
                    proof {
                        lemma_filter_step(old_diags, k as int, |d: LspDiagnostic| d.path@ != path@);
                    }
                    if !str_eq(d.path.as_str(), path) {
                        kept.push(copy_diagnostic(d));
                    }
                    k += 1;
                }
                assert(old_diags.take(old_diags.len() as int) =~= old_diags);
                let mut extra = diagnostics;
                kept.append(&mut extra);
                e.state.diagnostics = kept;
                self.entries.insert(i, e);
                proof {
                    self.lemma_wf_after_change(*old(self), i as int);
                }
            },
            None => {},
        }
    }

    /// The diagnostics every server holds for a file, server by server.
    pub fn get_diagnostics(&self, path: &str) -> (r: Vec<LspDiagnostic>)
        ensures
            r@ == diagnostics_for(self.entries(), path@),
    {
        let mut r: Vec<LspDiagnostic> = Vec::new();
        let mut i: usize = 0;
        while i < self.entries.len()
            invariant
                i <= self.entries@.len(),
                r@ == diagnostics_for(self.entries@.take(i as int), path@),
            decreases self.entries.len() - i,
        {
            assert(self.entries@.take(i + 1).drop_last() =~= self.entries@.take(i as int));
            let diags = &self.entries[i].state.diagnostics;
            let ghost before = r@;
            let ghost f = |d: LspDiagnostic| d.path@ == path@;
            let mut k: usize = 0;
            while k < diags.len()
                invariant
                    k <= diags@.len(),
                    f == (|d: LspDiagnostic| d.path@ == path@),
                    r@ == before + diags@.take(k as int).filter(f),
                decreases diags.len() - k,
            {
                proof {
                    lemma_filter_step(diags@, k as int, f);
                }
                if str_eq(diags[k].path.as_str(), path) {
                    r.push(copy_diagnostic(&diags[k]));
                }
                k += 1;
                assert(r@ =~= before + diags@.take(k as int).filter(f));
            }
            assert(diags@.take(diags@.len() as int) =~= diags@);
            i += 1;
        }
        assert(self.entries@.take(self.entries@.len() as int) =~= self.entries@);
        r
    }

    /// The diagnostics of every server.
    pub fn all_diagnostics(&self) -> (r: Vec<LspDiagnostic>)
        ensures
            r@ == all_diagnostics_of(self.entries()),
    {
        let mut r: Vec<LspDiagnostic> = Vec::new();
        let mut i: usize = 0;
        while i < self.entries.len()
            invariant
                i <= self.entries@.len(),
                r@ == all_diagnostics_of(self.entries@.take(i as int)),
            decreases self.entries.len() - i,
        {
            assert(self.entries@.take(i + 1).drop_last() =~= self.entries@.take(i as int));
            let mut copy = copy_diagnostics(&self.entries[i].state.diagnostics);
            r.append(&mut copy);
            i += 1;
        }
        assert(self.entries@.take(self.entries@.len() as int) =~= self.entries@);
        r
    }

    /// Removes a server, returning what was known of it.
    pub fn disconnect(&mut self, language: &str) -> (r: Option<LspServerState>)
        requires
            old(self).wf(),
        ensures
            final(self).wf(),
            final(self).open_files() == old(self).open_files(),
            match entry_index(old(self).entries(), language@) {
                Some(i) => r == Some(old(self).entries()[i].state) && final(self).entries() == old(
                    self,
                ).entries().remove(i),
                None => r is None && final(self).entries() == old(self).entries(),
            },
    {
        match self.position(language) {
            Some(i) => {
                let e = self.entries.remove(i);
                assert forall|a: int, b: int|
                    0 <= a < self.entries@.len() && 0 <= b < self.entries@.len() && a != b
                        implies #[trigger] self.entries@[a].state.language@ != #[trigger] self.entries@[b].state.language@ by {
                    let oa = if a < i { a } else { a + 1 };
                    let ob = if b < i { b } else { b + 1 };
                    assert(self.entries@[a] == old(self).entries@[oa]);
                    assert(self.entries@[b] == old(self).entries@[ob]);
                }
                Some(e.state)
            },
            None => None,
        }
    }

    /// Number of registered servers.
    pub fn len(&self) -> (r: usize)
        ensures
            r == self.entries().len(),
    {
        self.entries.len()
    }

    pub fn is_empty(&self) -> (r: bool)
        ensures
            r == (self.entries().len() == 0),
    {
        self.entries.len() == 0
    }

    /// Whether a file was opened through the registry.
    pub fn is_open(&self, path: &str) -> (r: bool)
        ensures
            r == self.open_files().contains(path@),
    {
        let mut i: usize = 0;
        while i < self.open_files.len()
            invariant
                i <= self.open_files@.len(),
                forall|j: int| 0 <= j < i ==> #[trigger] self.open_files@[j]@ != path@,
            decreases self.open_files.len() - i,
        {
            if str_eq(self.open_files[i].as_str(), path) {
                assert(self.open_files()[i as int] == path@);
                return true;
            }
            i += 1;
        }
        proof {
            if self.open_files().contains(path@) {
                let k = choose|k: int| 0 <= k < self.open_files().len() && self.open_files()[k] == path@;
                assert(self.open_files@[k]@ == path@);
            }
        }
        false
    }

    /// Records that a file was opened.
    pub fn mark_open(&mut self, path: &str)
        requires
            old(self).wf(),
        ensures
            final(self).wf(),
            final(self).entries() == old(self).entries(),
            final(self).open_files().to_set() == old(self).open_files().to_set().insert(path@),
    {
        if !self.is_open(path) {
            self.open_files.push(owned(path));
            assert(self.open_files() =~= old(self).open_files().push(path@));
            proof {
                old(self).open_files().lemma_push_to_set_commute(path@);
            }
        } else {
            assert(old(self).open_files().to_set().insert(path@) =~= old(self).open_files().to_set());
        }
    }

    /// Records that the server of a language was started: it is connected
    /// and its process runs.
    pub fn mark_started(&mut self, language: &str)
        requires
            old(self).wf(),
        ensures
            final(self).wf(),
            final(self).open_files() == old(self).open_files(),
            match entry_index(old(self).entries(), language@) {
                Some(i) => changed_at(
                    final(self).entries(),
                    old(self).entries(),
                    i,
                    old(self).entries()[i].state.diagnostics@,
                    true,
                    LspServerStatus::Connected,
                ),
                None => final(self).entries() == old(self).entries(),
            },
    {
        match self.position(language) {
            Some(i) => {
                let mut e = self.entries.remove(i);
                e.running = true;
                e.state.status = LspServerStatus::Connected;
                self.entries.insert(i, e);
                proof {
                    self.lemma_wf_after_change(*old(self), i as int);
                }
            },
            None => {},
        }
    }

    /// Stops the server of a language: it is marked disconnected and no
    /// longer counted as running. Returns whether a process ran, which the
    /// caller then shuts down.
    pub fn stop_server(&mut self, language: &str) -> (r: Result<bool, String>)
        requires
            old(self).wf(),
        ensures
            final(self).wf(),
            final(self).open_files() == old(self).open_files(),
            match entry_index(old(self).entries(), language@) {
                Some(i) => r == Ok::<bool, String>(old(self).entries()[i].running) && changed_at(
                    final(self).entries(),
                    old(self).entries(),
                    i,
                    old(self).entries()[i].state.diagnostics@,
                    false,
                    LspServerStatus::Disconnected,
                ),
                None => r matches Err(m) && m@ == not_found_message(language@) && final(self).entries()
                    == old(self).entries(),
            },
    {
        match self.position(language) {
            Some(i) => {
                let mut e = self.entries.remove(i);
                let was_running = e.running;
                e.running = false;
                e.state.status = LspServerStatus::Disconnected;
                self.entries.insert(i, e);
                proof {
                    self.lemma_wf_after_change(*old(self), i as int);
                }
                Ok(was_running)
            },
            None => Err(not_found(language)),
        }
    }
}

/// The entries are those before, except at `i`, whose diagnostics,
/// process and status are the given ones.
pub open spec fn changed_at(
    new: Seq<RegistryEntry>,
    old: Seq<RegistryEntry>,
    i: int,
    diagnostics: Seq<LspDiagnostic>,
    running: bool,
    status: LspServerStatus,
) -> bool {
    &&& new.len() == old.len()
    &&& forall|j: int| 0 <= j < new.len() && j != i ==> new[j] == old[j]
    &&& new[i].state.language == old[i].state.language
    &&& new[i].state.root_path == old[i].state.root_path
    &&& new[i].state.capabilities == old[i].state.capabilities
    &&& new[i].state.status == status
    &&& new[i].state.diagnostics@ == diagnostics
    &&& new[i].descriptor == old[i].descriptor
    &&& new[i].running == running
}

proof fn lemma_filter_step<A>(s: Seq<A>, k: int, p: spec_fn(A) -> bool)
    requires
        0 <= k < s.len(),
    ensures
        s.take(k + 1).filter(p) == (if p(s[k]) {
            s.take(k).filter(p).push(s[k])
        } else {
            s.take(k).filter(p)
        }),
{
    reveal(Seq::filter);
    assert(s.take(k + 1).drop_last() =~= s.take(k));
    assert(s.take(k + 1).last() == s[k]);
}

/// The diagnostics of all entries, entry by entry.
pub open spec fn all_diagnostics_of(entries: Seq<RegistryEntry>) -> Seq<LspDiagnostic>
    decreases entries.len(),
{
    if entries.len() == 0 {
        seq![]
    } else {
        all_diagnostics_of(entries.drop_last()) + entries.last().state.diagnostics@
    }
}


/// An action bound for the process of a server, with what the caller gave.
pub struct PendingAction {
    pub action: LspAction,
    /// The action's name as the caller wrote it.
    pub name: String,
    /// The file the action is about; empty for workspace symbols without one.
    pub path: String,
    pub line: Option<u32>,
    pub character: Option<u32>,
    pub query: Option<String>,
    pub language: String,
}

/// Where a dispatched action stands.
pub enum DispatchStep {
    /// The cached diagnostics: those of one file, or of every file.
    Diagnostics { path: Option<String>, diagnostics: Vec<LspDiagnostic> },
    /// The server has no process yet: start it, record the result and
    /// resume with it.
    Start(PendingAction),
    /// Starting the server failed, yet it is still marked connected.
    StartFailed { pending: PendingAction, error: String },
    /// Send the action to the running server.
    Invoke(PendingAction),
}

pub open spec fn opt_text(o: Option<&str>) -> Option<Seq<char>> {
    match o {
        Some(s) => Some(s@),
        None => None,
    }
}

pub open spec fn opt_string_text(o: Option<String>) -> Option<Seq<char>> {
    match o {
        Some(s) => Some(s@),
        None => None,
    }
}

pub open spec fn unknown_action_message(action: Seq<char>) -> Seq<char> {
    "unknown LSP action: "@ + action
}

pub open spec fn no_server_for_path_message(path: Seq<char>) -> Seq<char> {
    "no LSP server available for path: "@ + path
}

pub open spec fn not_connected_message(language: Seq<char>, status: LspServerStatus) -> Seq<char> {
    "LSP server for '"@ + language + "' is not connected (status: "@ + status_text(status) + ")"@
}

pub open spec fn no_process_message(language: Seq<char>) -> Seq<char> {
    "no LSP process available for language: "@ + language
}

/// The language of the server an action goes to, or why there is none.
pub open spec fn target_language(entries: Seq<RegistryEntry>, action: LspAction, path: Option<Seq<char>>) -> Result<
    Seq<char>,
    Seq<char>,
> {
    if action == LspAction::WorkspaceSymbols {
        if entries.len() == 0 {
            Err("no LSP servers available for workspace symbols"@)
        } else {
            Ok(entries[0].state.language@)
        }
    } else {
        match path {
            None => Err("path is required for this LSP action"@),
            Some(p) => match path_language(p) {
                Some(l) => Ok(l),
                None => Err(no_server_for_path_message(p)),
            },
        }
    }
}

/// A pending action carries what the caller gave.
pub open spec fn pending_is(
    p: PendingAction,
    action: LspAction,
    name: Seq<char>,
    path: Option<Seq<char>>,
    line: Option<u32>,
    character: Option<u32>,
    query: Option<Seq<char>>,
    language: Seq<char>,
) -> bool {
    &&& p.action == action
    &&& p.name@ == name
    &&& p.path@ == match path {
        Some(x) => x,
        None => Seq::<char>::empty(),
    }
    &&& p.line == line
    &&& p.character == character
    &&& opt_string_text(p.query) == query
    &&& p.language@ == language
}

fn message2(a: &str, b: &str) -> (r: String)
    ensures
        r@ == a@ + b@,
{
    let mut v = crate::text::chars_of(a);
    push_str(&mut v, b);
    string_from_chars(&v)
}

fn not_connected(language: &str, status: LspServerStatus) -> (r: String)
    ensures
        r@ == not_connected_message(language@, status),
{
    let mut v = crate::text::chars_of("LSP server for '");
    push_str(&mut v, language);
    push_str(&mut v, "' is not connected (status: ");
    let st = status.to_string();
    push_str(&mut v, st.as_str());
    push_str(&mut v, ")");
    string_from_chars(&v)
}

impl LspRegistry {
    fn target(&self, action: LspAction, path: Option<&str>) -> (r: Result<String, String>)
        ensures
            match target_language(self.entries(), action, opt_text(path)) {
                Ok(l) => r matches Ok(x) && x@ == l,
                Err(m) => r matches Err(x) && x@ == m,
            },
    {
        if action == LspAction::WorkspaceSymbols {
            if self.entries.len() == 0 {
                Err(owned("no LSP servers available for workspace symbols"))
            } else {
                Ok(self.entries[0].state.language.clone())
            }
        } else {
            match path {
                None => Err(owned("path is required for this LSP action")),
                Some(p) => match language_for_path(p) {
                    Some(l) => Ok(l),
                    None => Err(message2("no LSP server available for path: ", p)),
                },
            }
        }
    }

    /// Routes an action: cached diagnostics are answered at once; any other
    /// action is bound for the server of its file (for workspace symbols,
    /// the first server), which must be registered and not known to be
    /// down. Whether its process must be started first is in the step.
    pub fn dispatch(
        &self,
        action: &str,
        path: Option<&str>,
        line: Option<u32>,
        character: Option<u32>,
        query: Option<&str>,
    ) -> (r: Result<DispatchStep, String>)
        requires
            self.wf(),
        ensures
            match action_named(action@) {
                None => r matches Err(m) && m@ == unknown_action_message(action@),
                Some(LspAction::Diagnostics) => r matches Ok(DispatchStep::Diagnostics { path: p, diagnostics })
                    && opt_string_text(p) == opt_text(path) && diagnostics@ == match path {
                    Some(x) => diagnostics_for(self.entries(), x@),
                    None => all_diagnostics_of(self.entries()),
                },
                Some(a) => match target_language(self.entries(), a, opt_text(path)) {
                    Err(m) => r matches Err(e) && e@ == m,
                    Ok(l) => match entry_index(self.entries(), l) {
                        None => r matches Err(e) && e@ == no_server_for_path_message(
                            match path {
                                Some(x) => x@,
                                None => Seq::<char>::empty(),
                            },
                        ),
                        Some(i) => {
                            let e = self.entries()[i];
                            if !e.running && (e.state.status == LspServerStatus::Disconnected
                                || e.state.status == LspServerStatus::Error) {
                                r matches Err(m) && m@ == not_connected_message(l, e.state.status)
                            } else if !e.running {
                                r matches Ok(DispatchStep::Start(p)) && pending_is(
                                    p,
                                    a,
                                    action@,
                                    opt_text(path),
                                    line,
                                    character,
                                    opt_text(query),
                                    l,
                                )
                            } else if e.state.status != LspServerStatus::Connected {
                                r matches Err(m) && m@ == not_connected_message(l, e.state.status)
                            } else {
                                r matches Ok(DispatchStep::Invoke(p)) && pending_is(
                                    p,
                                    a,
                                    action@,
                                    opt_text(path),
                                    line,
                                    character,
                                    opt_text(query),
                                    l,
                                )
                            }
                        },
                    },
                },
            },
    {
        let act = match LspAction::from_str(action) {
            Some(a) => a,
            None => {
                return Err(message2("unknown LSP action: ", action));
            },
        };
        if act == LspAction::Diagnostics {
            return match path {
                Some(p) => Ok(DispatchStep::Diagnostics { path: Some(owned(p)), diagnostics: self.get_diagnostics(p) }),
                None => Ok(DispatchStep::Diagnostics { path: None, diagnostics: self.all_diagnostics() }),
            };
        }
        let language = match self.target(act, path) {
            Ok(l) => l,
            Err(e) => {
                return Err(e);
            },
        };
        let path_text = match path {
            Some(p) => owned(p),
            None => owned(""),
        };
        proof {
            reveal_strlit("");
            if path is None {
                assert(path_text@ =~= Seq::<char>::empty());
            }
        }
        let i = match self.position(language.as_str()) {
            Some(i) => i,
            None => {
                return Err(message2("no LSP server available for path: ", path_text.as_str()));
            },
        };
        let status = self.entries[i].state.status;
        let running = self.entries[i].running;
        if !running && (status == LspServerStatus::Disconnected || status == LspServerStatus::Error) {
            return Err(not_connected(language.as_str(), status));
        }
        if running && status != LspServerStatus::Connected {
            return Err(not_connected(language.as_str(), status));
        }
        let pending = PendingAction {
            action: act,
            name: owned(action),
            path: path_text,
            line,
            character,
            query: match query {
                Some(q) => Some(owned(q)),
                None => None,
            },
            language,
        };
        if running {
            Ok(DispatchStep::Invoke(pending))
        } else {
            Ok(DispatchStep::Start(pending))
        }
    }

    /// The descriptor that starts the server of a language: its own, or
    /// else the first of the servers found available for the language.
    /// `None` when its process already runs.
    pub fn start_descriptor<'a>(&'a self, language: &str, available: &'a [LspServerDescriptor]) -> (r: Result<
        Option<&'a LspServerDescriptor>,
        String,
    >)
        requires
            self.wf(),
        ensures
            match entry_index(self.entries(), language@) {
                Some(i) if self.entries()[i].running => r matches Ok(None),
                Some(i) if self.entries()[i].descriptor is Some => r matches Ok(Some(d))
                    && self.entries()[i].descriptor == Some(*d),
                _ => if exists|k: int| 0 <= k < available@.len() && #[trigger] available@[k].language@ == language@ {
                    r matches Ok(Some(d)) && exists|k: int|
                        0 <= k < available@.len() && *d == available@[k] && #[trigger] available@[k].language@ == language@
                            && forall|j: int| 0 <= j < k ==> #[trigger] available@[j].language@ != language@
                } else {
                    r matches Err(m) && m@ == "no LSP server descriptor found for language: "@ + language@
                },
            },
    {
        if let Some(i) = self.position(language) {
            if self.entries[i].running {
                return Ok(None);
            }
            if let Some(d) = &self.entries[i].descriptor {
                return Ok(Some(d));
            }
        }
        let mut k: usize = 0;
        while k < available.len()
            invariant
                k <= available@.len(),
                forall|j: int| 0 <= j < k ==> #[trigger] available@[j].language@ != language@,
                match entry_index(self.entries(), language@) {
                    Some(i) => !self.entries()[i].running && self.entries()[i].descriptor is None,
                    None => true,
                },
            decreases available.len() - k,
        {
            if str_eq(available[k].language.as_str(), language) {
                assert(available@[k as int].language@ == language@);
                return Ok(Some(&available[k]));
            }
            k += 1;
        }
        Err(message2("no LSP server descriptor found for language: ", language))
    }

    /// Goes on with an action after its server was asked to start (and, on
    /// success, recorded as started): a failed start is an error unless the
    /// server is still marked connected; otherwise the action is sent to the
    /// server's process, which must be connected and running.
    pub fn resume_dispatch(&self, pending: PendingAction, started: Result<(), String>) -> (r: Result<
        DispatchStep,
        String,
    >)
        requires
            self.wf(),
        ensures
            match started {
                Err(e) => match entry_index(self.entries(), pending.language@) {
                    Some(i) if self.entries()[i].state.status != LspServerStatus::Connected => r matches Err(m)
                        && m@ == not_connected_message(pending.language@, self.entries()[i].state.status) + ": "@
                        + e@,
                    _ => r matches Ok(DispatchStep::StartFailed { pending: p, error }) && p == pending && error@
                        == e@,
                },
                Ok(_) => match entry_index(self.entries(), pending.language@) {
                    Some(i) => if self.entries()[i].state.status != LspServerStatus::Connected {
                        r matches Err(m) && m@ == not_connected_message(
                            pending.language@,
                            self.entries()[i].state.status,
                        )
                    } else if !self.entries()[i].running {
                        r matches Err(m) && m@ == no_process_message(pending.language@)
                    } else {
                        r matches Ok(DispatchStep::Invoke(p)) && p == pending
                    },
                    None => r matches Err(m) && m@ == no_process_message(pending.language@),
                },
            },
    {
        let found = self.position(pending.language.as_str());
        match started {
            Err(e) => {
                if let Some(i) = found {
                    let status = self.entries[i].state.status;
                    if status != LspServerStatus::Connected {
                        let head = not_connected(pending.language.as_str(), status);
                        let mut v = crate::text::chars_of(head.as_str());
                        push_str(&mut v, ": ");
                        push_str(&mut v, e.as_str());
                        return Err(string_from_chars(&v));
                    }
                }
                Ok(DispatchStep::StartFailed { pending, error: e })
            },
            Ok(()) => match found {
                Some(i) => {
                    let status = self.entries[i].state.status;
                    if status != LspServerStatus::Connected {
                        Err(not_connected(pending.language.as_str(), status))
                    } else if !self.entries[i].running {
                        Err(message2("no LSP process available for language: ", pending.language.as_str()))
                    } else {
                        Ok(DispatchStep::Invoke(pending))
                    }
                },
                None => Err(message2("no LSP process available for language: ", pending.language.as_str())),
            },
        }
    }
}


/// Registering a server makes it the one found for its language, and
/// leaves what is found for every other language as it was.
pub proof fn law_register_then_lookup(before: LspRegistry, after: LspRegistry, e: RegistryEntry, other: Seq<char>)
    requires
        before.wf(),
        after.wf(),
        after.entries() == with_entry(before.entries(), e),
        other != e.state.language@,
    ensures
        entry_index(after.entries(), e.state.language@) matches Some(i) && after.entries()[i] == e,
        match entry_index(before.entries(), other) {
            Some(i) => entry_index(after.entries(), other) == Some(i) && after.entries()[i] == before.entries()[i],
            None => entry_index(after.entries(), other) is None,
        },
{
    let s = before.entries();
    let t = after.entries();
    let l = e.state.language@;
    match entry_index(s, l) {
        Some(k) => {
            assert(t[k].state.language@ == l);
        },
        None => {
            assert(t[s.len() as int].state.language@ == l);
        },
    }
    let i = choose|i: int| 0 <= i < t.len() && #[trigger] t[i].state.language@ == l;
    assert(t[i] == e) by {
        match entry_index(s, l) {
            Some(k) => {
                if i != k {
                    assert(t[k].state.language@ == t[i].state.language@);
                }
            },
            None => {
                if i != s.len() {
                    assert(t[i] == s[i]);
                }
            },
        }
    }
    match entry_index(s, other) {
        Some(k) => {
            assert(t[k] == s[k]) by {
                if let Some(m) = entry_index(s, l) {
                    assert(k != m);
                }
            }
            let j = choose|j: int| 0 <= j < t.len() && #[trigger] t[j].state.language@ == other;
            if j != k {
                assert(t[k].state.language@ == t[j].state.language@);
            }
        },
        None => {
            if exists|j: int| 0 <= j < t.len() && #[trigger] t[j].state.language@ == other {
                let j = choose|j: int| 0 <= j < t.len() && #[trigger] t[j].state.language@ == other;
                match entry_index(s, l) {
                    Some(m) => {
                        if j != m {
                            assert(t[j] == s[j]);
                        }
                    },
                    None => {
                        if j != s.len() {
                            assert(t[j] == s[j]);
                        }
                    },
                }
            }
        },
    }
}

/// After a server is disconnected no server is found for its language.
pub proof fn law_disconnect_forgets(before: LspRegistry, after: LspRegistry, language: Seq<char>)
    requires
        before.wf(),
        entry_index(before.entries(), language) matches Some(i) && after.entries() == before.entries().remove(i),
    ensures
        entry_index(after.entries(), language) is None,
        after.entries().len() + 1 == before.entries().len(),
{
    let s = before.entries();
    let t = after.entries();
    let i = entry_index(s, language)->Some_0;
    if exists|j: int| 0 <= j < t.len() && #[trigger] t[j].state.language@ == language {
        let j = choose|j: int| 0 <= j < t.len() && #[trigger] t[j].state.language@ == language;
        let oj = if j < i { j } else { j + 1 };
        assert(t[j] == s[oj]);
        assert(s[oj].state.language@ == s[i].state.language@);
    }
}

} // verus!

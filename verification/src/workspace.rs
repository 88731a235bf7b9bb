//! Workspaces: typed execution environments with a root directory, the store
//! that keeps them, and the files that a mission finds in its directory.

use crate::nspawn::{NspawnDistro, NspawnError};
use crate::text::{
    chars_of, clone_opt, clone_strings, extend_chars, extend_str, join2, join_path, joined,
    lemma_lex_antisymmetric, lemma_lex_total, lemma_lex_transitive, lex_le, lex_le_exec,
    lower_hex, push_arg, slice_chars, str_eq, string_of, view_opt, view_strs, zero_padded,
};
use vstd::prelude::*;

verus! {

/// The id of the host workspace, which always exists: the nil UUID.
pub const DEFAULT_WORKSPACE_ID: u128 = 0;

/// Where a workspace runs its commands.
#[derive(Debug, Clone, Copy, PartialEq, Eq, Structural)]
pub enum WorkspaceType {
    /// Directly on the host.
    Host,
    /// Inside an isolated container root.
    Chroot,
}

impl WorkspaceType {
    /// The name under which the kind is written to configuration files.
    pub open spec fn name(self) -> Seq<char> {
        match self {
            WorkspaceType::Host => "host"@,
            WorkspaceType::Chroot => "chroot"@,
        }
    }

    pub fn as_str(&self) -> (r: &'static str)
        ensures
            r@ == self.name(),
    {
        match self {
            WorkspaceType::Host => "host",
            WorkspaceType::Chroot => "chroot",
        }
    }
}

impl Default for WorkspaceType {
    fn default() -> (r: Self)
        ensures
            r == WorkspaceType::Host,
    {
        WorkspaceType::Host
    }
}

/// How far the build of a workspace has come.
#[derive(Debug, Clone, Copy, PartialEq, Eq, Structural)]
pub enum WorkspaceStatus {
    /// Container not yet built.
    Pending,
    /// Container build in progress.
    Building,
    /// Ready for execution.
    Ready,
    /// Build failed.
    Error,
}

impl WorkspaceStatus {
    /// The name of the status.
    pub open spec fn label(self) -> Seq<char> {
        match self {
            WorkspaceStatus::Pending => "Pending"@,
            WorkspaceStatus::Building => "Building"@,
            WorkspaceStatus::Ready => "Ready"@,
            WorkspaceStatus::Error => "Error"@,
        }
    }

    pub fn as_str(&self) -> (r: &'static str)
        ensures
            r@ == self.label(),
    {
        match self {
            WorkspaceStatus::Pending => "Pending",
            WorkspaceStatus::Building => "Building",
            WorkspaceStatus::Ready => "Ready",
            WorkspaceStatus::Error => "Error",
        }
    }
}

impl Default for WorkspaceStatus {
    fn default() -> (r: Self)
        ensures
            r == WorkspaceStatus::Ready,
    {
        WorkspaceStatus::Ready
    }
}

/// A workspace.
#[derive(Debug, Clone, PartialEq, Eq)]
pub struct Workspace {
    /// The id, a UUID as a number.
    pub id: u128,
    /// The name shown to people.
    pub name: String,
    pub workspace_type: WorkspaceType,
    /// The root directory.
    pub path: String,
    pub status: WorkspaceStatus,
    /// The message of a failed build.
    pub error_message: Option<String>,
    /// Free-form configuration, as JSON text.
    pub config: String,
    /// When the workspace was made, in milliseconds since the Unix epoch.
    pub created_at: i64,
    /// Names of the skills synced into the workspace.
    pub skills: Vec<String>,
    /// Names of the tools synced into the workspace.
    pub tools: Vec<String>,
    /// Identifiers of plugins.
    pub plugins: Vec<String>,
}

/// The mathematical value of a workspace.
pub struct WorkspaceView {
    pub id: u128,
    pub name: Seq<char>,
    pub workspace_type: WorkspaceType,
    pub path: Seq<char>,
    pub status: WorkspaceStatus,
    pub error_message: Option<Seq<char>>,
    pub config: Seq<char>,
    pub created_at: i64,
    pub skills: Seq<Seq<char>>,
    pub tools: Seq<Seq<char>>,
    pub plugins: Seq<Seq<char>>,
}

impl View for Workspace {
    type V = WorkspaceView;

    open spec fn view(&self) -> WorkspaceView {
        WorkspaceView {
            id: self.id,
            name: self.name@,
            workspace_type: self.workspace_type,
            path: self.path@,
            status: self.status,
            error_message: view_opt(self.error_message),
            config: self.config@,
            created_at: self.created_at,
            skills: view_strs(self.skills@),
            tools: view_strs(self.tools@),
            plugins: view_strs(self.plugins@),
        }
    }
}

/// `chrono::Utc::now`, then `DateTime::timestamp_millis`: the current time
/// in milliseconds since the Unix epoch. Nothing is claimed of the result.
#[verifier::external_body]
fn now_millis() -> i64 {
    chrono::Utc::now().timestamp_millis()
}

/// `uuid::Uuid::new_v4`, then `Uuid::as_u128`: a random id. It sets the
/// bits of the version and the variant, so the id is never the nil id, which
/// is all that is claimed of it.
#[verifier::external_body]
fn fresh_id() -> (r: u128)
    ensures
        r != DEFAULT_WORKSPACE_ID,
{
    uuid::Uuid::new_v4().as_u128()
}

impl Workspace {
    /// The host workspace for the working directory `working_dir`, made at
    /// `created_at`.
    pub open spec fn host_at(working_dir: Seq<char>, created_at: i64) -> WorkspaceView {
        WorkspaceView {
            id: DEFAULT_WORKSPACE_ID,
            name: "host"@,
            workspace_type: WorkspaceType::Host,
            path: working_dir,
            status: WorkspaceStatus::Ready,
            error_message: None,
            config: "{}"@,
            created_at,
            skills: Seq::empty(),
            tools: Seq::empty(),
            plugins: Seq::empty(),
        }
    }

    /// A container workspace that waits for its build.
    pub open spec fn chroot_at(
        id: u128,
        name: Seq<char>,
        path: Seq<char>,
        status: WorkspaceStatus,
        created_at: i64,
    ) -> WorkspaceView {
        WorkspaceView {
            id,
            name,
            workspace_type: WorkspaceType::Chroot,
            path,
            status,
            error_message: None,
            config: "{}"@,
            created_at,
            skills: Seq::empty(),
            tools: Seq::empty(),
            plugins: Seq::empty(),
        }
    }

    /// Makes the host workspace with a given time of creation.
    pub fn default_host_at(working_dir: &str, created_at: i64) -> (w: Workspace)
        ensures
            w@ == Workspace::host_at(working_dir@, created_at),
    {
        let w = Workspace {
            id: DEFAULT_WORKSPACE_ID,
            name: "host".to_owned(),
            workspace_type: WorkspaceType::Host,
            path: working_dir.to_owned(),
            status: WorkspaceStatus::Ready,
            error_message: None,
            config: "{}".to_owned(),
            created_at,
            skills: Vec::new(),
            tools: Vec::new(),
            plugins: Vec::new(),
        };
        assert(w@.skills =~= Seq::empty() && w@.tools =~= Seq::empty() && w@.plugins
            =~= Seq::empty());
        w
    }

    /// Makes a container workspace with a given id, status and time of
    /// creation.
    pub fn chroot_with(
        id: u128,
        name: &str,
        path: &str,
        status: WorkspaceStatus,
        created_at: i64,
    ) -> (w: Workspace)
        ensures
            w@ == Workspace::chroot_at(id, name@, path@, status, created_at),
    {
        let w = Workspace {
            id,
            name: name.to_owned(),
            workspace_type: WorkspaceType::Chroot,
            path: path.to_owned(),
            status,
            error_message: None,
            config: "{}".to_owned(),
            created_at,
            skills: Vec::new(),
            tools: Vec::new(),
            plugins: Vec::new(),
        };
        assert(w@.skills =~= Seq::empty() && w@.tools =~= Seq::empty() && w@.plugins
            =~= Seq::empty());
        w
    }

    /// The host workspace, made now.
    pub fn default_host(working_dir: &str) -> (w: Workspace)
        ensures
            w@ == Workspace::host_at(working_dir@, w.created_at),
    {
        Workspace::default_host_at(working_dir, now_millis())
    }

    /// A new container workspace with a fresh id, made now, that waits for
    /// its build.
    pub fn new_chroot(name: &str, path: &str) -> (w: Workspace)
        ensures
            w@ == Workspace::chroot_at(w.id, name@, path@, WorkspaceStatus::Pending, w.created_at),
            w.id != DEFAULT_WORKSPACE_ID,
    {
        Workspace::chroot_with(fresh_id(), name, path, WorkspaceStatus::Pending, now_millis())
    }

    /// A copy of the workspace.
    pub fn duplicate(&self) -> (w: Workspace)
        ensures
            w@ == self@,
    {
        Workspace {
            id: self.id,
            name: self.name.clone(),
            workspace_type: self.workspace_type,
            path: self.path.clone(),
            status: self.status,
            error_message: clone_opt(&self.error_message),
            config: self.config.clone(),
            created_at: self.created_at,
            skills: clone_strings(&self.skills),
            tools: clone_strings(&self.tools),
            plugins: clone_strings(&self.plugins),
        }
    }
}

// ---------------------------------------------------------------------------
// The store
// ---------------------------------------------------------------------------

/// The order in which workspaces are listed and written: by name, and by id
/// among equal names.
pub open spec fn listed_before(a: WorkspaceView, b: WorkspaceView) -> bool {
    if a.name == b.name {
        a.id <= b.id
    } else {
        lex_le(a.name, b.name)
    }
}

/// The ids of a list of workspaces.
pub open spec fn ids_of(ws: Seq<Workspace>) -> Seq<u128> {
    Seq::new(ws.len(), |i: int| ws[i].id)
}

/// The list is in listing order.
pub open spec fn in_order(ws: Seq<Workspace>) -> bool {
    forall|i: int, j: int| 0 <= i < j < ws.len() ==> listed_before(ws[i]@, ws[j]@)
}

/// The map from id to workspace that a list stands for.
pub open spec fn by_id(ws: Seq<Workspace>) -> Map<u128, WorkspaceView> {
    Map::new(|id: u128| ids_of(ws).contains(id), |id: u128| ws[ids_of(ws).index_of(id)]@)
}

/// No id occurs twice, the list is in order, and the host workspace is in it
/// and ready.
pub open spec fn list_wf(ws: Seq<Workspace>) -> bool {
    &&& ids_of(ws).no_duplicates()
    &&& in_order(ws)
    &&& ids_of(ws).contains(DEFAULT_WORKSPACE_ID)
    &&& by_id(ws)[DEFAULT_WORKSPACE_ID].status == WorkspaceStatus::Ready
}

proof fn lemma_listed_before_total(a: WorkspaceView, b: WorkspaceView)
    ensures
        listed_before(a, b) || listed_before(b, a),
{
    lemma_lex_total(a.name, b.name);
}

proof fn lemma_listed_before_transitive(a: WorkspaceView, b: WorkspaceView, c: WorkspaceView)
    requires
        listed_before(a, b),
        listed_before(b, c),
    ensures
        listed_before(a, c),
{
    if a.name == b.name {
    } else if b.name == c.name {
    } else {
        lemma_lex_transitive(a.name, b.name, c.name);
        if a.name == c.name {
            lemma_lex_antisymmetric(a.name, b.name);
        }
    }
}

proof fn lemma_by_id_at(ws: Seq<Workspace>, i: int)
    requires
        ids_of(ws).no_duplicates(),
        0 <= i < ws.len(),
    ensures
        by_id(ws).contains_key(ws[i].id),
        by_id(ws)[ws[i].id] == ws[i]@,
{
    let ids = ids_of(ws);
    assert(ids[i] == ws[i].id);
    assert(ids.contains(ws[i].id));
    let j = ids.index_of(ws[i].id);
    assert(0 <= j < ids.len() && ids[j] == ws[i].id);
}

proof fn lemma_by_id_key(ws: Seq<Workspace>, id: u128) -> (i: int)
    requires
        ids_of(ws).no_duplicates(),
        by_id(ws).contains_key(id),
    ensures
        0 <= i < ws.len(),
        ws[i].id == id,
        by_id(ws)[id] == ws[i]@,
{
    let ids = ids_of(ws);
    let i = ids.index_of(id);
    assert(0 <= i < ids.len() && ids[i] == id);
    i
}

proof fn lemma_list_remove(ws: Seq<Workspace>, i: int)
    requires
        ids_of(ws).no_duplicates(),
        in_order(ws),
        0 <= i < ws.len(),
    ensures
        ids_of(ws.remove(i)).no_duplicates(),
        in_order(ws.remove(i)),
        by_id(ws.remove(i)) == by_id(ws).remove(ws[i].id),
{
    let w2 = ws.remove(i);
    assert forall|a: int, b: int| 0 <= a < b < w2.len() implies ids_of(w2)[a] != ids_of(w2)[b]
        && listed_before(w2[a]@, w2[b]@) by {
        let a1 = if a < i {
            a
        } else {
            a + 1
        };
        let b1 = if b < i {
            b
        } else {
            b + 1
        };
        assert(w2[a] == ws[a1] && w2[b] == ws[b1]);
        assert(ids_of(ws)[a1] == ws[a1].id && ids_of(ws)[b1] == ws[b1].id);
    }
    assert forall|a: int, b: int| 0 <= a < b < w2.len() implies ids_of(w2)[a] != ids_of(w2)[b] by {
        assert(listed_before(w2[a]@, w2[b]@) && ids_of(w2)[a] != ids_of(w2)[b]);
    }
    assert(ids_of(w2).no_duplicates());
    assert(in_order(w2));
    let m = by_id(ws).remove(ws[i].id);
    assert forall|id: u128| #[trigger] by_id(w2).contains_key(id) implies m.contains_key(id)
        && by_id(w2)[id] == m[id] by {
        let j = lemma_by_id_key(w2, id);
        let j1 = if j < i {
            j
        } else {
            j + 1
        };
        assert(w2[j] == ws[j1]);
        lemma_by_id_at(ws, j1);
        assert(ids_of(ws)[j1] == id && ids_of(ws)[i] == ws[i].id);
    }
    assert forall|id: u128| #[trigger] m.contains_key(id) implies by_id(w2).contains_key(id) by {
        let j = lemma_by_id_key(ws, id);
        let j2 = if j < i {
            j
        } else {
            j - 1
        };
        assert(w2[j2] == ws[j]);
        lemma_by_id_at(w2, j2);
    }
    assert(by_id(w2) =~= m);
}

proof fn lemma_list_insert(ws: Seq<Workspace>, p: int, w: Workspace)
    requires
        ids_of(ws).no_duplicates(),
        in_order(ws),
        0 <= p <= ws.len(),
        !by_id(ws).contains_key(w.id),
        forall|i: int| 0 <= i < p ==> listed_before(#[trigger] ws[i]@, w@),
        forall|i: int| p <= i < ws.len() ==> listed_before(w@, #[trigger] ws[i]@),
    ensures
        ids_of(ws.insert(p, w)).no_duplicates(),
        in_order(ws.insert(p, w)),
        by_id(ws.insert(p, w)) == by_id(ws).insert(w.id, w@),
{
    let w2 = ws.insert(p, w);
    assert forall|a: int, b: int| 0 <= a < b < w2.len() implies ids_of(w2)[a] != ids_of(w2)[b]
        && listed_before(w2[a]@, w2[b]@) by {
        let a1 = if a < p {
            a
        } else {
            a - 1
        };
        let b1 = if b < p {
            b
        } else {
            b - 1
        };
        if a == p {
            assert(w2[b] == ws[b1]);
            lemma_by_id_at(ws, b1);
        } else if b == p {
            assert(w2[a] == ws[a1]);
            lemma_by_id_at(ws, a1);
        } else {
            assert(w2[a] == ws[a1] && w2[b] == ws[b1]);
            assert(ids_of(ws)[a1] == ws[a1].id && ids_of(ws)[b1] == ws[b1].id);
        }
    }
    assert forall|a: int, b: int| 0 <= a < b < w2.len() implies ids_of(w2)[a] != ids_of(w2)[b] by {
        assert(listed_before(w2[a]@, w2[b]@) && ids_of(w2)[a] != ids_of(w2)[b]);
    }
    assert(ids_of(w2).no_duplicates());
    assert(in_order(w2));
    let m = by_id(ws).insert(w.id, w@);
    assert forall|id: u128| #[trigger] by_id(w2).contains_key(id) implies m.contains_key(id)
        && by_id(w2)[id] == m[id] by {
        let j = lemma_by_id_key(w2, id);
        if j != p {
            let j1 = if j < p {
                j
            } else {
                j - 1
            };
            assert(w2[j] == ws[j1]);
            lemma_by_id_at(ws, j1);
        }
    }
    assert forall|id: u128| #[trigger] m.contains_key(id) implies by_id(w2).contains_key(id) by {
        if id == w.id {
            assert(w2[p] == w);
            lemma_by_id_at(w2, p);
        } else {
            let j = lemma_by_id_key(ws, id);
            let j2 = if j < p {
                j
            } else {
                j + 1
            };
            assert(w2[j2] == ws[j]);
            lemma_by_id_at(w2, j2);
        }
    }
    assert(by_id(w2) =~= m);
}

/// How the removal of a workspace ends.
#[derive(Debug, Clone, Copy, PartialEq, Eq)]
pub enum DeleteOutcome {
    /// The workspace is gone; a request for it is answered with status 200.
    Deleted,
    /// The host workspace cannot be deleted; status 400.
    IsDefault,
    /// There is no such workspace; status 404.
    NotFound,
}

/// The workspaces of one server, by id.
pub struct WorkspaceStore {
    entries: Vec<Workspace>,
}

impl View for WorkspaceStore {
    type V = Map<u128, WorkspaceView>;

    closed spec fn view(&self) -> Map<u128, WorkspaceView> {
        by_id(self.entries@)
    }
}

/// The views of a list of workspaces.
pub open spec fn view_workspaces(ws: Seq<Workspace>) -> Seq<WorkspaceView> {
    Seq::new(ws.len(), |i: int| ws[i]@)
}

impl WorkspaceStore {
    /// The store's invariant: one workspace per id, kept in listing order,
    /// and the host workspace is there and ready.
    pub closed spec fn wf(&self) -> bool {
        list_wf(self.entries@)
    }

    /// What is written to disk after every change, and what `list` returns:
    /// all workspaces, in listing order.
    pub closed spec fn persisted(&self) -> Seq<WorkspaceView> {
        view_workspaces(self.entries@)
    }

    /// A store that holds the host workspace for `working_dir` alone.
    pub fn new(working_dir: &str) -> (s: Self)
        ensures
            s.wf(),
            s@.dom() == set![DEFAULT_WORKSPACE_ID],
            s@[DEFAULT_WORKSPACE_ID] == Workspace::host_at(
                working_dir@,
                s@[DEFAULT_WORKSPACE_ID].created_at,
            ),
    {
        let host = Workspace::default_host(working_dir);
        let mut entries: Vec<Workspace> = Vec::new();
        entries.push(host);
        proof {
            let ws = entries@;
            assert(ids_of(ws)[0] == DEFAULT_WORKSPACE_ID);
            lemma_by_id_at(ws, 0);
            assert(by_id(ws).dom() =~= set![DEFAULT_WORKSPACE_ID]);
        }
        WorkspaceStore { entries }
    }

    fn position(&self, id: u128) -> (r: Option<usize>)
        requires
            ids_of(self.entries@).no_duplicates(),
        ensures
            match r {
                Some(i) => i < self.entries@.len() && self.entries@[i as int].id == id
                    && self@.contains_key(id) && self@[id] == self.entries@[i as int]@,
                None => !self@.contains_key(id),
            },
    {
        let mut i: usize = 0;
        while i < self.entries.len()
            invariant
                i <= self.entries@.len(),
                ids_of(self.entries@).no_duplicates(),
                forall|j: int| 0 <= j < i ==> ids_of(self.entries@)[j] != id,
            decreases self.entries@.len() - i,
        {
            if self.entries[i].id == id {
                proof {
                    lemma_by_id_at(self.entries@, i as int);
                }
                return Some(i);
            }
            i = i + 1;
        }
        proof {
            if self@.contains_key(id) {
                let j = lemma_by_id_key(self.entries@, id);
                assert(ids_of(self.entries@)[j] == id);
            }
        }
        None
    }

    /// All workspaces, in listing order.
    pub fn list(&self) -> (r: Vec<Workspace>)
        requires
            self.wf(),
        ensures
            view_workspaces(r@) == self.persisted(),
    {
        let mut out: Vec<Workspace> = Vec::new();
        let mut i: usize = 0;
        while i < self.entries.len()
            invariant
                i <= self.entries@.len(),
                view_workspaces(out@) =~= view_workspaces(self.entries@).take(i as int),
            decreases self.entries@.len() - i,
        {
            let ghost before = out@;
            let copy = self.entries[i].duplicate();
            out.push(copy);
            assert(view_workspaces(out@) =~= view_workspaces(before).push(self.entries@[i as int]@));
            assert(view_workspaces(self.entries@).take(i + 1) =~= view_workspaces(
                self.entries@,
            ).take(i as int).push(self.entries@[i as int]@));
            i = i + 1;
        }
        assert(view_workspaces(self.entries@).take(self.entries@.len() as int)
            == view_workspaces(self.entries@));
        out
    }

    /// The workspace with the given id, if there is one.
    pub fn get(&self, id: u128) -> (r: Option<Workspace>)
        requires
            self.wf(),
        ensures
            match r {
                Some(w) => self@.contains_key(id) && w@ == self@[id],
                None => !self@.contains_key(id),
            },
    {
        match self.position(id) {
            Some(i) => Some(self.entries[i].duplicate()),
            None => None,
        }
    }

    /// The host workspace.
    pub fn get_default(&self) -> (w: Workspace)
        requires
            self.wf(),
        ensures
            w@ == self@[DEFAULT_WORKSPACE_ID],
            w.id == DEFAULT_WORKSPACE_ID,
            w.status == WorkspaceStatus::Ready,
    {
        let i = match self.position(DEFAULT_WORKSPACE_ID) {
            Some(i) => i,
            None => {
                proof {
                    let j = ids_of(self.entries@).index_of(DEFAULT_WORKSPACE_ID);
                    assert(by_id(self.entries@).contains_key(DEFAULT_WORKSPACE_ID));
                }
                0
            },
        };
        self.entries[i].duplicate()
    }

    /// Whether the store takes `w`: every workspace but one that would put
    /// the host workspace out of the ready state.
    pub open spec fn accepts(w: WorkspaceView) -> bool {
        w.id == DEFAULT_WORKSPACE_ID ==> w.status == WorkspaceStatus::Ready
    }

    fn put(&mut self, w: Workspace)
        requires
            old(self).wf(),
            WorkspaceStore::accepts(w@),
        ensures
            final(self).wf(),
            final(self)@ == old(self)@.insert(w.id, w@),
    {
        let ghost before = self.entries@;
        match self.position(w.id) {
            Some(i) => {
                proof {
                    lemma_list_remove(before, i as int);
                }
                self.entries.remove(i);
            },
            None => {
                assert(by_id(before).remove(w.id) =~= by_id(before));
            },
        }
        let ghost mid = self.entries@;
        assert(by_id(mid) == by_id(before).remove(w.id));
        let name = chars_of(w.name.as_str());
        let mut p: usize = 0;
        let mut found: bool = false;
        while p < self.entries.len() && !found
            invariant
                p <= self.entries@.len(),
                self.entries@ == mid,
                name@ == w.name@,
                forall|i: int| 0 <= i < p ==> listed_before(#[trigger] mid[i]@, w@),
                found ==> p < mid.len() && !listed_before(mid[p as int]@, w@),
            decreases self.entries@.len() - p + (if found { 0int } else { 1int }),
        {
            let other = chars_of(self.entries[p].name.as_str());
            let comes_first = if crate::text::chars_eq(&other, &name) {
                self.entries[p].id <= w.id
            } else {
                lex_le_exec(&other, &name)
            };
            if comes_first {
                p = p + 1;
            } else {
                found = true;
            }
        }
        proof {
            assert forall|i: int| p <= i < mid.len() implies listed_before(
                w@,
                #[trigger] mid[i]@,
            ) by {
                lemma_listed_before_total(mid[p as int]@, w@);
                if i > p {
                    assert(listed_before(mid[p as int]@, mid[i]@));
                    lemma_listed_before_transitive(w@, mid[p as int]@, mid[i]@);
                }
            }
            lemma_list_insert(mid, p as int, w);
            assert(by_id(before).remove(w.id).insert(w.id, w@) =~= by_id(before).insert(
                w.id,
                w@,
            ));
            let after = mid.insert(p as int, w);
            assert(by_id(after).contains_key(DEFAULT_WORKSPACE_ID));
            let j = lemma_by_id_key(after, DEFAULT_WORKSPACE_ID);
            assert(ids_of(after)[j] == DEFAULT_WORKSPACE_ID);
        }
        self.entries.insert(p, w);
    }

    /// Adds a workspace, in the place of one with the same id where there is
    /// one, and returns its id. A workspace with the id of the host
    /// workspace that is not ready is not taken.
    pub fn add(&mut self, workspace: Workspace) -> (id: u128)
        requires
            old(self).wf(),
        ensures
            final(self).wf(),
            id == workspace.id,
            WorkspaceStore::accepts(workspace@) ==> final(self)@ == old(self)@.insert(
                workspace.id,
                workspace@,
            ),
            !WorkspaceStore::accepts(workspace@) ==> final(self)@ == old(self)@,
    {
        let id = workspace.id;
        if id == DEFAULT_WORKSPACE_ID && workspace.status != WorkspaceStatus::Ready {
            return id;
        }
        self.put(workspace);
        id
    }

    /// Replaces the workspace that has the id of `workspace`. Returns whether
    /// there was one; where there was none, or the change would put the host
    /// workspace out of the ready state, nothing changes.
    pub fn update(&mut self, workspace: Workspace) -> (updated: bool)
        requires
            old(self).wf(),
        ensures
            final(self).wf(),
            updated == (old(self)@.contains_key(workspace.id) && WorkspaceStore::accepts(
                workspace@,
            )),
            updated ==> final(self)@ == old(self)@.insert(workspace.id, workspace@),
            !updated ==> final(self)@ == old(self)@,
    {
        if workspace.id == DEFAULT_WORKSPACE_ID && workspace.status != WorkspaceStatus::Ready {
            return false;
        }
        match self.position(workspace.id) {
            Some(_) => {
                self.put(workspace);
                true
            },
            None => false,
        }
    }

    /// Removes the workspace with the given id, and says how that ended.
    /// The host workspace cannot be removed: asking for it is an error of
    /// its own, apart from asking for a workspace that is not there.
    pub fn delete(&mut self, id: u128) -> (r: DeleteOutcome)
        requires
            old(self).wf(),
        ensures
            final(self).wf(),
            r == (if id == DEFAULT_WORKSPACE_ID {
                DeleteOutcome::IsDefault
            } else if old(self)@.contains_key(id) {
                DeleteOutcome::Deleted
            } else {
                DeleteOutcome::NotFound
            }),
            r == DeleteOutcome::Deleted ==> final(self)@ == old(self)@.remove(id),
            r != DeleteOutcome::Deleted ==> final(self)@ == old(self)@,
    {
        if id == DEFAULT_WORKSPACE_ID {
            return DeleteOutcome::IsDefault;
        }
        match self.position(id) {
            Some(i) => {
                proof {
                    lemma_list_remove(self.entries@, i as int);
                    let after = self.entries@.remove(i as int);
                    assert(by_id(after).contains_key(DEFAULT_WORKSPACE_ID));
                    let j = lemma_by_id_key(after, DEFAULT_WORKSPACE_ID);
                    assert(ids_of(after)[j] == DEFAULT_WORKSPACE_ID);
                }
                self.entries.remove(i);
                DeleteOutcome::Deleted
            },
            None => DeleteOutcome::NotFound,
        }
    }
}

/// What is written to disk holds exactly the workspaces of the store, each
/// once, in listing order: it is the sorted list of the store's values.
pub proof fn lemma_persisted_is_sorted_values(store: WorkspaceStore)
    requires
        store.wf(),
    ensures
        forall|i: int, j: int|
            0 <= i < j < store.persisted().len() ==> listed_before(
                store.persisted()[i],
                store.persisted()[j],
            ) && store.persisted()[i].id != store.persisted()[j].id,
        forall|i: int|
            0 <= i < store.persisted().len() ==> store@.contains_key(
                (#[trigger] store.persisted()[i]).id,
            ) && store@[store.persisted()[i].id] == store.persisted()[i],
        forall|id: u128| #[trigger]
            store@.contains_key(id) ==> exists|i: int|
                0 <= i < store.persisted().len() && #[trigger] store.persisted()[i] == store@[id],
{
    let ws = store.entries@;
    assert forall|i: int, j: int| 0 <= i < j < store.persisted().len() implies listed_before(
        store.persisted()[i],
        store.persisted()[j],
    ) && store.persisted()[i].id != store.persisted()[j].id by {
        assert(ids_of(ws)[i] == ws[i].id && ids_of(ws)[j] == ws[j].id);
    }
    assert forall|i: int| 0 <= i < store.persisted().len() implies store@.contains_key(
        (#[trigger] store.persisted()[i]).id,
    ) && store@[store.persisted()[i].id] == store.persisted()[i] by {
        lemma_by_id_at(ws, i);
    }
    assert forall|id: u128| #[trigger] store@.contains_key(id) implies exists|i: int|
        0 <= i < store.persisted().len() && #[trigger] store.persisted()[i] == store@[id] by {
        let i = lemma_by_id_key(ws, id);
        assert(store.persisted()[i] == store@[id]);
    }
}

/// The host workspace is always in a well-formed store, and ready.
pub proof fn lemma_default_workspace_exists(store: WorkspaceStore)
    requires
        store.wf(),
    ensures
        store@.contains_key(DEFAULT_WORKSPACE_ID),
        store@[DEFAULT_WORKSPACE_ID].status == WorkspaceStatus::Ready,
{
}

// ---------------------------------------------------------------------------
// Orphaned containers
// ---------------------------------------------------------------------------

/// What the caller found of one entry of a containers directory.
#[derive(Debug, Clone, PartialEq, Eq)]
pub struct FoundDirectory {
    /// The last component of the path, where it is valid text.
    pub name: Option<String>,
    pub path: String,
    pub is_dir: bool,
    /// Whether the entry holds `etc`.
    pub has_etc: bool,
    /// Whether the entry holds `bin`.
    pub has_bin: bool,
}

/// A container root on disk that no workspace refers to.
#[derive(Debug, Clone, PartialEq, Eq)]
pub struct OrphanedContainer {
    pub name: String,
    pub path: String,
    /// Ready where the root looks like one, pending where it does not.
    pub status: WorkspaceStatus,
}

/// The mathematical value of an orphaned container.
pub struct OrphanView {
    pub name: Seq<char>,
    pub path: Seq<char>,
    pub status: WorkspaceStatus,
}

impl View for OrphanedContainer {
    type V = OrphanView;

    open spec fn view(&self) -> OrphanView {
        OrphanView { name: self.name@, path: self.path@, status: self.status }
    }
}

/// The views of a list of orphans.
pub open spec fn view_orphans(v: Seq<OrphanedContainer>) -> Seq<OrphanView> {
    Seq::new(v.len(), |i: int| v[i]@)
}

/// The root directories of the container workspaces of a store.
pub open spec fn container_paths(store: Map<u128, WorkspaceView>) -> Set<Seq<char>> {
    Set::new(
        |p: Seq<char>|
            exists|id: u128| #[trigger]
                store.contains_key(id) && store[id].workspace_type == WorkspaceType::Chroot
                    && store[id].path == p,
    )
}

/// A found entry is an orphan where it is a directory with a name in valid
/// text whose path no known container has.
pub open spec fn is_orphan(known: Set<Seq<char>>, d: FoundDirectory) -> bool {
    d.is_dir && d.name is Some && !known.contains(d.path@)
}

/// The orphan that a found directory stands for: it is ready iff it holds
/// `etc` or `bin`.
pub open spec fn orphan_of(d: FoundDirectory) -> OrphanView {
    OrphanView {
        name: d.name->0@,
        path: d.path@,
        status: if d.has_etc || d.has_bin {
            WorkspaceStatus::Ready
        } else {
            WorkspaceStatus::Pending
        },
    }
}

/// The orphans among the found entries, in order.
pub open spec fn orphans_of(known: Set<Seq<char>>, found: Seq<FoundDirectory>) -> Seq<OrphanView>
    decreases found.len(),
{
    if found.len() == 0 {
        Seq::empty()
    } else if is_orphan(known, found.last()) {
        orphans_of(known, found.drop_last()).push(orphan_of(found.last()))
    } else {
        orphans_of(known, found.drop_last())
    }
}

/// The directories that are scanned for container roots: the containers
/// directory and the legacy one.
pub fn container_scan_roots(working_dir: &str) -> (r: Vec<String>)
    ensures
        view_strs(r@) == seq![
            joined(working_dir@, ".openagent/containers"@),
            joined(working_dir@, ".openagent/chroots"@),
        ],
{
    let mut out: Vec<String> = Vec::new();
    assert(view_strs(out@) =~= Seq::<Seq<char>>::empty());
    let a = join_path(working_dir, ".openagent/containers");
    push_arg(&mut out, a.as_str());
    let b = join_path(working_dir, ".openagent/chroots");
    push_arg(&mut out, b.as_str());
    assert(view_strs(out@) =~= seq![
        joined(working_dir@, ".openagent/containers"@),
        joined(working_dir@, ".openagent/chroots"@),
    ]);
    out
}

impl WorkspaceStore {
    fn knows_container(&self, path: &str) -> (r: bool)
        requires
            self.wf(),
        ensures
            r == container_paths(self@).contains(path@),
    {
        let mut i: usize = 0;
        while i < self.entries.len()
            invariant
                i <= self.entries@.len(),
                self.wf(),
                forall|j: int|
                    0 <= j < i ==> !((#[trigger] self.entries@[j]).workspace_type
                        == WorkspaceType::Chroot && self.entries@[j].path@ == path@),
            decreases self.entries@.len() - i,
        {
            let is_container = match self.entries[i].workspace_type {
                WorkspaceType::Chroot => true,
                WorkspaceType::Host => false,
            };
            if is_container && str_eq(self.entries[i].path.as_str(), path) {
                proof {
                    lemma_by_id_at(self.entries@, i as int);
                    let id = self.entries@[i as int].id;
                    assert(self@.contains_key(id) && self@[id].workspace_type
                        == WorkspaceType::Chroot && self@[id].path == path@);
                }
                return true;
            }
            i = i + 1;
        }
        proof {
            if container_paths(self@).contains(path@) {
                let id = choose|id: u128| #[trigger]
                    self@.contains_key(id) && self@[id].workspace_type == WorkspaceType::Chroot
                        && self@[id].path == path@;
                let j = lemma_by_id_key(self.entries@, id);
                assert(self.entries@[j].workspace_type == WorkspaceType::Chroot);
            }
        }
        false
    }

    /// Finds the container roots on disk that no workspace of the store
    /// refers to, among the entries found in the scanned directories.
    /// Entries that are no directories, or whose name is no valid text, are
    /// passed over.
    pub fn scan_orphaned_containers(&self, found: &Vec<FoundDirectory>) -> (r: Vec<
        OrphanedContainer,
    >)
        requires
            self.wf(),
        ensures
            view_orphans(r@) == orphans_of(container_paths(self@), found@),
    {
        let mut out: Vec<OrphanedContainer> = Vec::new();
        let mut i: usize = 0;
        let ghost known = container_paths(self@);
        assert(view_orphans(out@) =~= orphans_of(known, found@.take(0)));
        while i < found.len()
            invariant
                i <= found.len(),
                self.wf(),
                known == container_paths(self@),
                view_orphans(out@) == orphans_of(known, found@.take(i as int)),
            decreases found.len() - i,
        {
            let d = &found[i];
            proof {
                assert(found@.take(i + 1).drop_last() == found@.take(i as int));
                assert(found@.take(i + 1).last() == found@[i as int]);
            }
            if d.is_dir {
                match &d.name {
                    Some(name) => {
                        if !self.knows_container(d.path.as_str()) {
                            let status = if d.has_etc || d.has_bin {
                                WorkspaceStatus::Ready
                            } else {
                                WorkspaceStatus::Pending
                            };
                            let ghost before = out@;
                            out.push(
                                OrphanedContainer {
                                    name: name.clone(),
                                    path: d.path.clone(),
                                    status,
                                },
                            );
                            assert(view_orphans(out@) =~= view_orphans(before).push(
                                orphan_of(found@[i as int]),
                            ));
                        }
                    },
                    None => {},
                }
            }
            i = i + 1;
        }
        assert(found@.take(found@.len() as int) == found@);
        out
    }

    /// Takes an orphaned container into the store as a workspace with the
    /// given id, made at `now`. An id that is taken is turned down, and
    /// nothing changes.
    pub fn restore_orphan(&mut self, orphan: &OrphanedContainer, id: u128, now: i64) -> (restored:
        bool)
        requires
            old(self).wf(),
        ensures
            final(self).wf(),
            restored == !old(self)@.contains_key(id),
            restored ==> final(self)@ == old(self)@.insert(
                id,
                Workspace::chroot_at(id, orphan.name@, orphan.path@, orphan.status, now),
            ),
            restored ==> container_paths(final(self)@).contains(orphan.path@),
            !restored ==> final(self)@ == old(self)@,
            forall|p: Seq<char>|
                container_paths(old(self)@).contains(p) ==> container_paths(final(self)@).contains(
                    p,
                ),
    {
        match self.position(id) {
            Some(_) => false,
            None => {
                let w = Workspace::chroot_with(
                    id,
                    orphan.name.as_str(),
                    orphan.path.as_str(),
                    orphan.status,
                    now,
                );
                let ghost before = self@;
                proof {
                    assert(DEFAULT_WORKSPACE_ID != id) by {
                        let j = ids_of(self.entries@).index_of(DEFAULT_WORKSPACE_ID);
                        assert(by_id(self.entries@).contains_key(DEFAULT_WORKSPACE_ID));
                    }
                }
                self.put(w);
                proof {
                    assert(self@.contains_key(id) && self@[id].workspace_type
                        == WorkspaceType::Chroot && self@[id].path == orphan.path@);
                    assert forall|p: Seq<char>| container_paths(before).contains(
                        p,
                    ) implies container_paths(self@).contains(p) by {
                        let other = choose|other: u128| #[trigger]
                            before.contains_key(other) && before[other].workspace_type
                                == WorkspaceType::Chroot && before[other].path == p;
                        assert(self@.contains_key(other) && self@[other] == before[other]);
                    }
                }
                true
            },
        }
    }

    /// Takes orphaned containers into the store, each as a workspace made at
    /// `now` under an id drawn for it. One id is drawn for each container;
    /// in the event that it is taken, the container is left out and is found
    /// again at the next start. The workspaces that were there stay as they
    /// were, and every workspace that is new stands for one of the
    /// containers. The ids of the new workspaces are returned.
    pub fn restore_orphans(&mut self, orphans: &Vec<OrphanedContainer>, now: i64) -> (restored: Vec<
        u128,
    >)
        requires
            old(self).wf(),
        ensures
            final(self).wf(),
            forall|id: u128| #[trigger]
                old(self)@.contains_key(id) ==> final(self)@.contains_key(id) && final(self)@[id]
                    == old(self)@[id],
            forall|id: u128| #[trigger]
                final(self)@.contains_key(id) && !old(self)@.contains_key(id) ==> restored@.contains(
                    id,
                ) && exists|i: int|
                    0 <= i < orphans@.len() && final(self)@[id] == Workspace::chroot_at(
                        id,
                        (#[trigger] orphans@[i]).name@,
                        orphans@[i].path@,
                        orphans@[i].status,
                        now,
                    ),
            forall|id: u128| #[trigger]
                restored@.contains(id) ==> final(self)@.contains_key(id) && !old(self)@.contains_key(
                    id,
                ),
            forall|p: Seq<char>|
                container_paths(old(self)@).contains(p) ==> container_paths(final(self)@).contains(
                    p,
                ),
            restored@.len() <= orphans@.len(),
    {
        let mut restored: Vec<u128> = Vec::new();
        let mut n: usize = 0;
        while n < orphans.len()
            invariant
                n <= orphans.len(),
                self.wf(),
                restored@.len() <= n,
                forall|id: u128| #[trigger]
                    old(self)@.contains_key(id) ==> self@.contains_key(id) && self@[id] == old(
                        self,
                    )@[id],
                forall|id: u128| #[trigger]
                    self@.contains_key(id) && !old(self)@.contains_key(id) ==> restored@.contains(
                        id,
                    ) && exists|i: int|
                        0 <= i < n && self@[id] == Workspace::chroot_at(
                            id,
                            (#[trigger] orphans@[i]).name@,
                            orphans@[i].path@,
                            orphans@[i].status,
                            now,
                        ),
                forall|id: u128| #[trigger]
                    restored@.contains(id) ==> self@.contains_key(id) && !old(self)@.contains_key(
                        id,
                    ),
                forall|p: Seq<char>|
                    container_paths(old(self)@).contains(p) ==> container_paths(self@).contains(p),
            decreases orphans.len() - n,
        {
            let id = fresh_id();
            let ghost before = self@;
            let ghost had = restored@;
            if self.restore_orphan(&orphans[n], id, now) {
                restored.push(id);
                proof {
                    assert(restored@[had.len() as int] == id);
                    assert forall|x: u128| #[trigger] had.contains(x) implies restored@.contains(
                        x,
                    ) by {
                        let w = choose|w: int| 0 <= w < had.len() && had[w] == x;
                        assert(restored@[w] == x);
                    }
                    assert forall|x: u128| #[trigger]
                        self@.contains_key(x) && !old(self)@.contains_key(
                            x,
                        ) implies restored@.contains(x) && exists|i: int|
                        0 <= i < n + 1 && self@[x] == Workspace::chroot_at(
                            x,
                            (#[trigger] orphans@[i]).name@,
                            orphans@[i].path@,
                            orphans@[i].status,
                            now,
                        ) by {
                        if x == id {
                            assert(self@[x] == Workspace::chroot_at(
                                x,
                                orphans@[n as int].name@,
                                orphans@[n as int].path@,
                                orphans@[n as int].status,
                                now,
                            ));
                        } else {
                            assert(before.contains_key(x) && self@[x] == before[x]);
                            let i = choose|i: int|
                                0 <= i < n && before[x] == Workspace::chroot_at(
                                    x,
                                    (#[trigger] orphans@[i]).name@,
                                    orphans@[i].path@,
                                    orphans@[i].status,
                                    now,
                                );
                            assert(0 <= i < n + 1);
                        }
                    }
                    assert forall|x: u128| #[trigger] restored@.contains(x) implies self@.contains_key(
                        x,
                    ) && !old(self)@.contains_key(x) by {
                        if x != id {
                            let w = choose|w: int| 0 <= w < restored@.len() && restored@[w] == x;
                            assert(had[w] == x);
                            assert(had.contains(x));
                        }
                    }
                }
            }
            n = n + 1;
        }
        restored
    }

    /// The root directory of the workspace with the given id, of the host
    /// workspace where no id is given, and `fallback` where the store has no
    /// such workspace.
    pub fn resolve_workspace_root(&self, workspace_id: Option<u128>, fallback: &str) -> (r: String)
        requires
            self.wf(),
        ensures
            r@ == (match workspace_id {
                Some(id) => if self@.contains_key(id) {
                    self@[id].path
                } else {
                    fallback@
                },
                None => self@[DEFAULT_WORKSPACE_ID].path,
            }),
    {
        let id = match workspace_id {
            Some(id) => id,
            None => DEFAULT_WORKSPACE_ID,
        };
        match self.position(id) {
            Some(i) => self.entries[i].path.clone(),
            None => {
                proof {
                    let j = ids_of(self.entries@).index_of(DEFAULT_WORKSPACE_ID);
                    assert(by_id(self.entries@).contains_key(DEFAULT_WORKSPACE_ID));
                }
                fallback.to_owned()
            },
        }
    }

    /// The workspace with the given id, the host workspace where no id is
    /// given, and a host workspace for `working_dir`, made now, where the
    /// store has no such workspace.
    pub fn resolve_workspace(&self, workspace_id: Option<u128>, working_dir: &str) -> (w: Workspace)
        requires
            self.wf(),
        ensures
            w@ == (match workspace_id {
                Some(id) => if self@.contains_key(id) {
                    self@[id]
                } else {
                    Workspace::host_at(working_dir@, w.created_at)
                },
                None => self@[DEFAULT_WORKSPACE_ID],
            }),
    {
        let id = match workspace_id {
            Some(id) => id,
            None => DEFAULT_WORKSPACE_ID,
        };
        match self.position(id) {
            Some(i) => self.entries[i].duplicate(),
            None => {
                proof {
                    let j = ids_of(self.entries@).index_of(DEFAULT_WORKSPACE_ID);
                    assert(by_id(self.entries@).contains_key(DEFAULT_WORKSPACE_ID));
                }
                Workspace::default_host(working_dir)
            },
        }
    }
}

proof fn lemma_orphans_member(known: Set<Seq<char>>, found: Seq<FoundDirectory>, i: int)
    requires
        0 <= i < found.len(),
        is_orphan(known, found[i]),
    ensures
        orphans_of(known, found).contains(orphan_of(found[i])),
    decreases found.len(),
{
    let rest = orphans_of(known, found.drop_last());
    if i == found.len() - 1 {
        assert(orphans_of(known, found) == rest.push(orphan_of(found.last())));
        assert(orphans_of(known, found)[rest.len() as int] == orphan_of(found[i]));
    } else {
        lemma_orphans_member(known, found.drop_last(), i);
        assert(found.drop_last()[i] == found[i]);
        let k = choose|k: int| 0 <= k < rest.len() && rest[k] == orphan_of(found[i]);
        if is_orphan(known, found.last()) {
            assert(orphans_of(known, found)[k] == rest[k]);
        }
    }
}

/// Recovery of orphans does nothing the second time. Once every orphan that
/// a scan found has become a container workspace, and no known container has
/// been forgotten, a scan of the same directories finds no orphan.
pub proof fn lemma_orphan_recovery_idempotent(
    known: Set<Seq<char>>,
    later: Set<Seq<char>>,
    found: Seq<FoundDirectory>,
)
    requires
        forall|p: Seq<char>| known.contains(p) ==> later.contains(p),
        forall|i: int|
            0 <= i < orphans_of(known, found).len() ==> later.contains(
                (#[trigger] orphans_of(known, found)[i]).path,
            ),
    ensures
        orphans_of(later, found) == Seq::<OrphanView>::empty(),
{
    lemma_no_orphans(known, later, found, found.len() as int);
    assert(found.take(found.len() as int) == found);
}

proof fn lemma_no_orphans(
    known: Set<Seq<char>>,
    later: Set<Seq<char>>,
    found: Seq<FoundDirectory>,
    n: int,
)
    requires
        0 <= n <= found.len(),
        forall|p: Seq<char>| known.contains(p) ==> later.contains(p),
        forall|i: int|
            0 <= i < orphans_of(known, found).len() ==> later.contains(
                (#[trigger] orphans_of(known, found)[i]).path,
            ),
    ensures
        orphans_of(later, found.take(n)) == Seq::<OrphanView>::empty(),
    decreases n,
{
    if n > 0 {
        lemma_no_orphans(known, later, found, n - 1);
        assert(found.take(n).drop_last() == found.take(n - 1));
        let d = found[n - 1];
        assert(found.take(n).last() == d);
        if is_orphan(later, d) {
            assert(is_orphan(known, d));
            lemma_orphans_member(known, found, n - 1);
            let k = choose|k: int|
                0 <= k < orphans_of(known, found).len() && orphans_of(known, found)[k]
                    == orphan_of(d);
            assert(later.contains(orphans_of(known, found)[k].path));
        }
    }
}

// ---------------------------------------------------------------------------
// Building a container workspace
// ---------------------------------------------------------------------------

/// What the caller does to build a container workspace.
#[derive(Debug, Clone, Copy, PartialEq, Eq)]
pub enum BuildStep {
    /// The root is there with the distribution asked for: nothing to do.
    AlreadyBuilt,
    /// Create the root with this distribution, after destroying the one that
    /// is there where `destroy_first` is set.
    Build { distro: NspawnDistro, destroy_first: bool },
}

/// The message for a build or a destruction of a workspace that is no
/// container.
pub open spec fn not_a_container_message() -> Seq<char> {
    "Workspace is not a container type"@
}

/// The distribution that is built where none is asked for.
pub open spec fn distro_or_default(distro: Option<NspawnDistro>) -> NspawnDistro {
    match distro {
        Some(d) => d,
        None => NspawnDistro::UbuntuNoble,
    }
}

/// The message of a failed build.
pub open spec fn build_failed_message(e: NspawnError) -> Seq<char> {
    "Container build failed: "@ + e.text()
}

/// Starts the build of a container workspace. `root_ready` says whether the
/// root is there and complete, `detected` which distribution it holds. A
/// host workspace is turned down. A root that already holds the
/// distribution asked for makes the workspace ready at once; otherwise the
/// workspace is building until `finish_build` is called.
pub fn begin_build(
    workspace: &mut Workspace,
    distro: Option<NspawnDistro>,
    root_ready: bool,
    detected: Option<NspawnDistro>,
) -> (r: Result<BuildStep, String>)
    ensures
        old(workspace).workspace_type != WorkspaceType::Chroot ==> (r matches Err(m) && m@
            == not_a_container_message() && *final(workspace) == *old(workspace)),
        old(workspace).workspace_type == WorkspaceType::Chroot && root_ready && detected == Some(
            distro_or_default(distro),
        ) ==> r == Ok::<BuildStep, String>(BuildStep::AlreadyBuilt) && *final(workspace) == (
        Workspace { status: WorkspaceStatus::Ready, ..*old(workspace) }),
        old(workspace).workspace_type == WorkspaceType::Chroot && !(root_ready && detected == Some(
            distro_or_default(distro),
        )) ==> r == Ok::<BuildStep, String>(
            BuildStep::Build { distro: distro_or_default(distro), destroy_first: root_ready },
        ) && *final(workspace) == (Workspace {
            status: WorkspaceStatus::Building,
            ..*old(workspace)
        }),
{
    match workspace.workspace_type {
        WorkspaceType::Host => {
            return Err("Workspace is not a container type".to_owned());
        },
        WorkspaceType::Chroot => {},
    }
    let wanted = match distro {
        Some(d) => d,
        None => NspawnDistro::UbuntuNoble,
    };
    let same = match detected {
        Some(d) => d == wanted,
        None => false,
    };
    if root_ready && same {
        workspace.status = WorkspaceStatus::Ready;
        Ok(BuildStep::AlreadyBuilt)
    } else {
        workspace.status = WorkspaceStatus::Building;
        Ok(BuildStep::Build { distro: wanted, destroy_first: root_ready })
    }
}

/// Ends the build of a container workspace with the outcome of the
/// creation: the workspace is ready and free of an error message after a
/// success, and in the error state with the message of the failure after
/// one.
pub fn finish_build(workspace: &mut Workspace, outcome: Result<(), NspawnError>) -> (r: Result<
    (),
    String,
>)
    ensures
        outcome is Ok ==> r is Ok && final(workspace)@ == (WorkspaceView {
            status: WorkspaceStatus::Ready,
            error_message: None,
            ..old(workspace)@
        }),
        outcome matches Err(e) ==> (r matches Err(m) && m@ == build_failed_message(e)
            && final(workspace)@ == (WorkspaceView {
            status: WorkspaceStatus::Error,
            error_message: Some(build_failed_message(e)),
            ..old(workspace)@
        })),
{
    match outcome {
        Ok(_) => {
            workspace.status = WorkspaceStatus::Ready;
            workspace.error_message = None;
            Ok(())
        },
        Err(e) => {
            let detail = e.message();
            let message = join2("Container build failed: ", detail.as_str());
            workspace.status = WorkspaceStatus::Error;
            workspace.error_message = Some(message.clone());
            Err(message)
        },
    }
}

/// Whether a workspace may be destroyed as a container: a host workspace is
/// turned down.
pub fn check_destroy(workspace: &Workspace) -> (r: Result<(), String>)
    ensures
        workspace.workspace_type == WorkspaceType::Chroot ==> r is Ok,
        workspace.workspace_type != WorkspaceType::Chroot ==> (r matches Err(m) && m@
            == not_a_container_message()),
{
    match workspace.workspace_type {
        WorkspaceType::Chroot => Ok(()),
        WorkspaceType::Host => Err("Workspace is not a container type".to_owned()),
    }
}

// ---------------------------------------------------------------------------
// Directories
// ---------------------------------------------------------------------------

/// The directory of configuration data under a working directory.
pub fn config_root(working_dir: &str) -> (r: String)
    ensures
        r@ == joined(working_dir@, ".openagent"@),
{
    join_path(working_dir, ".openagent")
}

/// The directory of workspace folders under a working directory.
pub fn workspaces_root(working_dir: &str) -> (r: String)
    ensures
        r@ == joined(working_dir@, "workspaces"@),
{
    join_path(working_dir, "workspaces")
}

/// The directory of workspace folders under the root of a workspace.
pub fn workspaces_root_for(root: &str) -> (r: String)
    ensures
        r@ == joined(root@, "workspaces"@),
{
    join_path(root, "workspaces")
}

/// A group of small hexadecimal digits: the numeral of `n`, with zeros in
/// front up to `width` digits.
pub open spec fn hex_group(n: nat, width: nat) -> Seq<char> {
    zero_padded(lower_hex(n), width)
}

/// The text of a UUID: 32 small hexadecimal digits, most significant first,
/// in groups of 8, 4, 4, 4 and 12 separated by hyphens.
pub open spec fn uuid_hyphenated(id: u128) -> Seq<char> {
    let n = id as nat;
    hex_group(n / 0x1_0000_0000_0000_0000_0000_0000, 8) + seq!['-'] + hex_group(
        (n / 0x1_0000_0000_0000_0000_0000) % 0x1_0000,
        4,
    ) + seq!['-'] + hex_group((n / 0x1_0000_0000_0000_0000) % 0x1_0000, 4) + seq!['-'] + hex_group(
        (n / 0x1_0000_0000_0000) % 0x1_0000,
        4,
    ) + seq!['-'] + hex_group(n % 0x1_0000_0000_0000, 12)
}

/// `uuid::Uuid::from_u128`, then the `Display` of the UUID, which writes
/// the sixteen bytes of the number, most significant first, as small
/// hexadecimal digits with hyphens after the digits 8, 12, 16 and 20.
#[verifier::external_body]
fn uuid_text(id: u128) -> (r: String)
    ensures
        r@ == uuid_hyphenated(id),
{
    uuid::Uuid::from_u128(id).to_string()
}

/// A small hexadecimal digit.
pub open spec fn is_hex_digit(c: char) -> bool {
    ('0' <= c && c <= '9') || ('a' <= c && c <= 'f')
}

/// 16 to the power `k`.
pub open spec fn sixteen_to(k: nat) -> nat
    decreases k,
{
    if k == 0 {
        1
    } else {
        16 * sixteen_to((k - 1) as nat)
    }
}

/// The numeral of a number below 16 to the `k` has at most `k` digits, all
/// of them small hexadecimal digits.
proof fn lemma_lower_hex(n: nat, k: nat)
    requires
        k >= 1,
        n < sixteen_to(k),
    ensures
        1 <= lower_hex(n).len() <= k,
        forall|i: int| 0 <= i < lower_hex(n).len() ==> is_hex_digit(#[trigger] lower_hex(n)[i]),
    decreases n,
{
    if n >= 16 {
        assert(k >= 2) by {
            reveal_with_fuel(sixteen_to, 2);
        }
        assert(n / 16 < sixteen_to((k - 1) as nat));
        lemma_lower_hex(n / 16, (k - 1) as nat);
    }
}

/// A group of `width` digits for a number that fits in them has `width`
/// characters, all of them small hexadecimal digits.
proof fn lemma_hex_group(n: nat, width: nat)
    requires
        width >= 1,
        n < sixteen_to(width),
    ensures
        hex_group(n, width).len() == width,
        forall|i: int| 0 <= i < width ==> is_hex_digit(#[trigger] hex_group(n, width)[i]),
{
    lemma_lower_hex(n, width);
}

/// The short id of a mission or task is the first group of the text of its
/// id: eight small hexadecimal digits, which give the 32 most significant
/// bits of the id.
pub proof fn lemma_short_id_is_eight_hex_digits(id: u128)
    ensures
        short_id(uuid_hyphenated(id)) == hex_group(
            (id as nat) / 0x1_0000_0000_0000_0000_0000_0000,
            8,
        ),
        short_id(uuid_hyphenated(id)).len() == 8,
        forall|i: int| 0 <= i < 8 ==> is_hex_digit(#[trigger] short_id(uuid_hyphenated(id))[i]),
{
    let n = id as nat;
    let head = n / 0x1_0000_0000_0000_0000_0000_0000;
    assert(sixteen_to(8) == 0x1_0000_0000) by {
        reveal_with_fuel(sixteen_to, 9);
    }
    assert(head < 0x1_0000_0000);
    lemma_hex_group(head, 8);
    let text = uuid_hyphenated(id);
    assert(text.len() >= 8);
    assert(text.subrange(0, 8) =~= hex_group(head, 8));
}

/// The first eight characters of the text of an id, or all of it where it
/// is shorter.
pub open spec fn short_id(text: Seq<char>) -> Seq<char> {
    if text.len() >= 8 {
        text.subrange(0, 8)
    } else {
        text
    }
}

/// The directory of the mission or task whose id has the text `id_text`,
/// under the root of a workspace: `workspaces/<kind>-<short id>`.
pub open spec fn run_dir(root: Seq<char>, kind: Seq<char>, id_text: Seq<char>) -> Seq<char> {
    joined(joined(root, "workspaces"@), kind + "-"@ + short_id(id_text))
}

/// The directory of a mission or task, given the text of its id.
pub fn run_dir_named(root: &str, kind: &str, id_text: &str) -> (r: String)
    ensures
        r@ == run_dir(root@, kind@, id_text@),
{
    let t = chars_of(id_text);
    let short = if t.len() >= 8 {
        slice_chars(&t, 0, 8)
    } else {
        t
    };
    let mut name = chars_of(kind);
    extend_str(&mut name, "-");
    extend_chars(&mut name, &short);
    let base = workspaces_root_for(root);
    let name_text = string_of(&name);
    join_path(base.as_str(), name_text.as_str())
}

/// The directory of a mission under a working directory.
pub fn mission_workspace_dir(working_dir: &str, mission_id: u128) -> (r: String)
    ensures
        r@ == run_dir(working_dir@, "mission"@, uuid_hyphenated(mission_id)),
{
    mission_workspace_dir_for_root(working_dir, mission_id)
}

/// The directory of a task under a working directory.
pub fn task_workspace_dir(working_dir: &str, task_id: u128) -> (r: String)
    ensures
        r@ == run_dir(working_dir@, "task"@, uuid_hyphenated(task_id)),
{
    task_workspace_dir_for_root(working_dir, task_id)
}

/// The directory of a mission under the root of a workspace.
pub fn mission_workspace_dir_for_root(root: &str, mission_id: u128) -> (r: String)
    ensures
        r@ == run_dir(root@, "mission"@, uuid_hyphenated(mission_id)),
{
    let text = uuid_text(mission_id);
    run_dir_named(root, "mission", text.as_str())
}

/// The directory of a task under the root of a workspace.
pub fn task_workspace_dir_for_root(root: &str, task_id: u128) -> (r: String)
    ensures
        r@ == run_dir(root@, "task"@, uuid_hyphenated(task_id)),
{
    let text = uuid_text(task_id);
    run_dir_named(root, "task", text.as_str())
}

/// The directories that every mission or task directory holds.
pub fn prepare_workspace_dir(path: &str) -> (r: Vec<String>)
    ensures
        view_strs(r@) == seq![joined(path@, "output"@), joined(path@, "temp"@)],
{
    let mut out: Vec<String> = Vec::new();
    assert(view_strs(out@) =~= Seq::<Seq<char>>::empty());
    let a = join_path(path, "output");
    push_arg(&mut out, a.as_str());
    let b = join_path(path, "temp");
    push_arg(&mut out, b.as_str());
    assert(view_strs(out@) =~= seq![joined(path@, "output"@), joined(path@, "temp"@)]);
    out
}

// ---------------------------------------------------------------------------
// Mission directories
// ---------------------------------------------------------------------------

/// What the servers of a mission read to know the workspace they serve.
#[derive(Debug, Clone, PartialEq, Eq)]
pub struct RuntimeWorkspaceState {
    /// The text of the workspace id.
    pub workspace_id: String,
    pub workspace_name: String,
    /// `host` or `chroot`.
    pub workspace_type: String,
    pub workspace_root: String,
    pub working_dir: String,
    /// The text of the mission id, where there is a mission.
    pub mission_id: Option<String>,
}

/// The path of the file that holds the runtime state of the workspace.
pub fn runtime_state_path(working_dir_root: &str) -> (r: String)
    ensures
        r@ == joined(
            joined(joined(working_dir_root@, ".openagent"@), "runtime"@),
            "current_workspace.json"@,
        ),
{
    let a = join_path(working_dir_root, ".openagent");
    let b = join_path(a.as_str(), "runtime");
    join_path(b.as_str(), "current_workspace.json")
}

/// Says what is written as the runtime state for a workspace, a working
/// directory and a mission.
pub fn write_runtime_workspace_state(
    workspace: &Workspace,
    working_dir: &str,
    mission_id: Option<u128>,
) -> (r: RuntimeWorkspaceState)
    ensures
        r.workspace_id@ == uuid_hyphenated(workspace.id),
        r.workspace_name@ == workspace.name@,
        r.workspace_type@ == workspace.workspace_type.name(),
        r.workspace_root@ == workspace.path@,
        r.working_dir@ == working_dir@,
        view_opt(r.mission_id) == (match mission_id {
            Some(id) => Some(uuid_hyphenated(id)),
            None => None,
        }),
{
    RuntimeWorkspaceState {
        workspace_id: uuid_text(workspace.id),
        workspace_name: workspace.name.clone(),
        workspace_type: workspace.workspace_type.as_str().to_owned(),
        workspace_root: workspace.path.clone(),
        working_dir: working_dir.to_owned(),
        mission_id: match mission_id {
            Some(id) => Some(uuid_text(id)),
            None => None,
        },
    }
}

/// What preparing a mission or task directory takes.
#[derive(Debug, Clone, PartialEq, Eq)]
pub struct WorkspacePlan {
    /// The mission or task directory.
    pub dir: String,
    /// The directories to create, `output` and `temp`.
    pub directories: Vec<String>,
    /// The configuration file.
    pub config: crate::projection::OpencodeConfig,
    /// The two paths at which the configuration file is written.
    pub config_paths: Vec<String>,
}

impl WorkspacePlan {
    /// The plan for the directory `dir` of a workspace with the given root
    /// and kind.
    pub open spec fn fits(
        self,
        dir: Seq<char>,
        configs: Seq<crate::projection::McpServerConfig>,
        probes: Seq<crate::projection::CommandProbe>,
        root: Seq<char>,
        kind: WorkspaceType,
    ) -> bool {
        &&& self.dir@ == dir
        &&& view_strs(self.directories@) == seq![joined(dir, "output"@), joined(dir, "temp"@)]
        &&& self.config.schema@ == crate::projection::schema_url()
        &&& crate::projection::projected(
            configs,
            probes,
            dir,
            root,
            kind,
            crate::projection::mcp_keys(self.config.mcp@),
            crate::projection::mcp_entries(self.config.mcp@),
            configs.len() as int,
        )
        &&& kind == WorkspaceType::Host ==> self.config.tools is None
        &&& kind == WorkspaceType::Chroot ==> (self.config.tools matches Some(t)
            && crate::projection::view_tools(t@) == crate::projection::container_tools())
        &&& view_strs(self.config_paths@) == seq![
            joined(dir, "opencode.json"@),
            joined(joined(dir, ".opencode"@), "opencode.json"@),
        ]
    }
}

fn plan_directory(
    dir: String,
    configs: &Vec<crate::projection::McpServerConfig>,
    probes: &Vec<crate::projection::CommandProbe>,
    root: &str,
    kind: WorkspaceType,
) -> (r: WorkspacePlan)
    ensures
        r.fits(dir@, configs@, probes@, root@, kind),
{
    let directories = prepare_workspace_dir(dir.as_str());
    let config = crate::projection::opencode_config(configs, probes, dir.as_str(), root, kind);
    let config_paths = crate::projection::opencode_config_paths(dir.as_str());
    WorkspacePlan { dir, directories, config, config_paths }
}

/// Plans a directory at a path of the caller's choice, as a host workspace
/// of its own.
pub fn prepare_custom_workspace(
    workspace_dir: &str,
    configs: &Vec<crate::projection::McpServerConfig>,
    probes: &Vec<crate::projection::CommandProbe>,
) -> (r: WorkspacePlan)
    ensures
        r.fits(workspace_dir@, configs@, probes@, workspace_dir@, WorkspaceType::Host),
{
    plan_directory(workspace_dir.to_owned(), configs, probes, workspace_dir, WorkspaceType::Host)
}

/// Plans the directory of a mission in the host workspace at `working_dir`.
pub fn prepare_mission_workspace(
    working_dir: &str,
    configs: &Vec<crate::projection::McpServerConfig>,
    probes: &Vec<crate::projection::CommandProbe>,
    mission_id: u128,
) -> (r: WorkspacePlan)
    ensures
        r.fits(
            run_dir(working_dir@, "mission"@, uuid_hyphenated(mission_id)),
            configs@,
            probes@,
            working_dir@,
            WorkspaceType::Host,
        ),
{
    let dir = mission_workspace_dir_for_root(working_dir, mission_id);
    plan_directory(dir, configs, probes, working_dir, WorkspaceType::Host)
}

/// Plans the directory of a mission in a workspace: the directories
/// `output` and `temp`, and the configuration file with the projection of
/// the registry, at both of its places.
pub fn prepare_mission_workspace_in(
    workspace: &Workspace,
    configs: &Vec<crate::projection::McpServerConfig>,
    probes: &Vec<crate::projection::CommandProbe>,
    mission_id: u128,
) -> (r: WorkspacePlan)
    ensures
        r.fits(
            run_dir(workspace.path@, "mission"@, uuid_hyphenated(mission_id)),
            configs@,
            probes@,
            workspace.path@,
            workspace.workspace_type,
        ),
{
    let dir = mission_workspace_dir_for_root(workspace.path.as_str(), mission_id);
    plan_directory(dir, configs, probes, workspace.path.as_str(), workspace.workspace_type)
}

/// Plans the directory of a task in the host workspace at `working_dir`.
pub fn prepare_task_workspace(
    working_dir: &str,
    configs: &Vec<crate::projection::McpServerConfig>,
    probes: &Vec<crate::projection::CommandProbe>,
    task_id: u128,
) -> (r: WorkspacePlan)
    ensures
        r.fits(
            run_dir(working_dir@, "task"@, uuid_hyphenated(task_id)),
            configs@,
            probes@,
            working_dir@,
            WorkspaceType::Host,
        ),
{
    let dir = task_workspace_dir_for_root(working_dir, task_id);
    plan_directory(dir, configs, probes, working_dir, WorkspaceType::Host)
}

/// A plan with the files of skills and tools.
#[derive(Debug, Clone, PartialEq, Eq)]
pub struct SkilledPlan {
    pub plan: WorkspacePlan,
    /// The files of the skills and tools, written after the configuration.
    pub files: Vec<crate::skills::FileToWrite>,
}

/// The files of a list of skills, in order.
pub open spec fn all_skill_files(dir: Seq<char>, skills: Seq<crate::skills::SkillContent>) -> Seq<
    (Seq<char>, Seq<char>),
>
    decreases skills.len(),
{
    if skills.len() == 0 {
        Seq::empty()
    } else {
        all_skill_files(dir, skills.drop_last()) + crate::skills::skill_files(dir, skills.last())
    }
}

/// The files of a list of tools, in order.
pub open spec fn all_tool_files(dir: Seq<char>, tools: Seq<crate::skills::ToolContent>) -> Seq<
    (Seq<char>, Seq<char>),
> {
    Seq::new(
        tools.len(),
        |i: int|
            (joined(crate::skills::tools_dir(dir), tools[i].name@ + ".ts"@), tools[i].content@),
    )
}

/// Says which files make skills available in a directory.
pub fn write_skills_to_workspace(workspace_dir: &str, skills: &Vec<crate::skills::SkillContent>) -> (r:
    Vec<crate::skills::FileToWrite>)
    ensures
        crate::skills::view_files(r@) == all_skill_files(workspace_dir@, skills@),
{
    let mut out: Vec<crate::skills::FileToWrite> = Vec::new();
    let mut i: usize = 0;
    assert(crate::skills::view_files(out@) =~= all_skill_files(workspace_dir@, skills@.take(0)));
    while i < skills.len()
        invariant
            i <= skills.len(),
            crate::skills::view_files(out@) == all_skill_files(
                workspace_dir@,
                skills@.take(i as int),
            ),
        decreases skills.len() - i,
    {
        let mut files = crate::skills::write_skill_to_workspace(workspace_dir, &skills[i]);
        let ghost before = out@;
        let ghost added = files@;
        proof {
            assert(skills@.take(i + 1).drop_last() == skills@.take(i as int));
            assert(skills@.take(i + 1).last() == skills@[i as int]);
        }
        out.append(&mut files);
        assert(crate::skills::view_files(out@) =~= crate::skills::view_files(before)
            + crate::skills::view_files(added));
        i = i + 1;
    }
    assert(skills@.take(skills@.len() as int) == skills@);
    out
}

/// Says which files make tools available in a directory.
pub fn write_tools_to_workspace(workspace_dir: &str, tools: &Vec<crate::skills::ToolContent>) -> (r:
    Vec<crate::skills::FileToWrite>)
    ensures
        crate::skills::view_files(r@) == all_tool_files(workspace_dir@, tools@),
{
    let mut out: Vec<crate::skills::FileToWrite> = Vec::new();
    let mut i: usize = 0;
    while i < tools.len()
        invariant
            i <= tools.len(),
            crate::skills::view_files(out@) =~= all_tool_files(workspace_dir@, tools@).take(
                i as int,
            ),
        decreases tools.len() - i,
    {
        let file = crate::skills::write_tool_to_workspace(workspace_dir, &tools[i]);
        let ghost before = out@;
        let ghost all = all_tool_files(workspace_dir@, tools@);
        out.push(file);
        assert(crate::skills::view_files(out@) =~= crate::skills::view_files(before).push(
            all[i as int],
        ));
        assert(all.take(i + 1) =~= all.take(i as int).push(all[i as int]));
        i = i + 1;
    }
    assert(all_tool_files(workspace_dir@, tools@).take(tools@.len() as int) == all_tool_files(
        workspace_dir@,
        tools@,
    ));
    out
}

/// Plans the directory of a mission with the skills and tools of the
/// workspace, as the caller loaded them from the library.
pub fn prepare_mission_workspace_with_skills(
    workspace: &Workspace,
    configs: &Vec<crate::projection::McpServerConfig>,
    probes: &Vec<crate::projection::CommandProbe>,
    skills: &Vec<crate::skills::SkillContent>,
    tools: &Vec<crate::skills::ToolContent>,
    mission_id: u128,
) -> (r: SkilledPlan)
    ensures
        r.plan.fits(
            run_dir(workspace.path@, "mission"@, uuid_hyphenated(mission_id)),
            configs@,
            probes@,
            workspace.path@,
            workspace.workspace_type,
        ),
        crate::skills::view_files(r.files@) == all_skill_files(r.plan.dir@, skills@)
            + all_tool_files(r.plan.dir@, tools@),
{
    let plan = prepare_mission_workspace_in(workspace, configs, probes, mission_id);
    let mut files = write_skills_to_workspace(plan.dir.as_str(), skills);
    let mut more = write_tools_to_workspace(plan.dir.as_str(), tools);
    let ghost a = files@;
    let ghost b = more@;
    files.append(&mut more);
    assert(crate::skills::view_files(files@) =~= crate::skills::view_files(a)
        + crate::skills::view_files(b));
    SkilledPlan { plan, files }
}

/// The store after the workspaces `loaded` have been added to `base`, one
/// after the other; a workspace that the store does not accept is passed
/// over.
pub open spec fn loaded_over(base: Map<u128, WorkspaceView>, loaded: Seq<Workspace>) -> Map<
    u128,
    WorkspaceView,
>
    decreases loaded.len(),
{
    if loaded.len() == 0 {
        base
    } else {
        let before = loaded_over(base, loaded.drop_last());
        if WorkspaceStore::accepts(loaded.last()@) {
            before.insert(loaded.last().id, loaded.last()@)
        } else {
            before
        }
    }
}

impl WorkspaceStore {
    /// The store that a server starts with: the host workspace for
    /// `working_dir`, and over it the workspaces read from disk, later ones
    /// winning over earlier ones with the same id.
    pub fn from_loaded(working_dir: &str, loaded: Vec<Workspace>) -> (s: Self)
        ensures
            s.wf(),
            exists|t: i64|
                s@ == loaded_over(
                    Map::<u128, WorkspaceView>::empty().insert(
                        DEFAULT_WORKSPACE_ID,
                        #[trigger] Workspace::host_at(working_dir@, t),
                    ),
                    loaded@,
                ),
    {
        let mut s = WorkspaceStore::new(working_dir);
        let ghost base = s@;
        let ghost t = s@[DEFAULT_WORKSPACE_ID].created_at;
        assert(base =~= Map::<u128, WorkspaceView>::empty().insert(
            DEFAULT_WORKSPACE_ID,
            Workspace::host_at(working_dir@, t),
        ));
        let mut i: usize = 0;
        assert(loaded@.take(0) =~= Seq::<Workspace>::empty());
        while i < loaded.len()
            invariant
                i <= loaded.len(),
                s.wf(),
                s@ == loaded_over(base, loaded@.take(i as int)),
            decreases loaded.len() - i,
        {
            let w = loaded[i].duplicate();
            proof {
                assert(loaded@.take(i + 1).drop_last() == loaded@.take(i as int));
                assert(loaded@.take(i + 1).last() == loaded@[i as int]);
            }
            s.add(w);
            i = i + 1;
        }
        assert(loaded@.take(loaded@.len() as int) == loaded@);
        s
    }
}

// ---------------------------------------------------------------------------
// Requests
// ---------------------------------------------------------------------------

/// A request to create a workspace.
#[derive(Debug, Clone, PartialEq, Eq)]
pub struct CreateWorkspaceRequest {
    /// The name shown to people.
    pub name: String,
    /// The kind; a host workspace where none is given.
    pub workspace_type: WorkspaceType,
    /// The root directory, where the client chooses it.
    pub path: Option<String>,
}

/// The root directory of a requested workspace: the one asked for, and else
/// the working directory for a host workspace and a directory of its own
/// under the managed containers area, `.openagent/containers`, for a
/// container.
pub open spec fn requested_root(req: CreateWorkspaceRequest, working_dir: Seq<char>) -> Seq<char> {
    match req.path {
        Some(p) => p@,
        None => match req.workspace_type {
            WorkspaceType::Host => working_dir,
            WorkspaceType::Chroot => joined(
                joined(working_dir, ".openagent/containers"@),
                req.name@,
            ),
        },
    }
}

/// Makes the workspace that a request asks for, with a fresh id: a host
/// workspace is ready at once, a container waits for its build.
pub fn create_workspace(req: &CreateWorkspaceRequest, working_dir: &str) -> (w: Workspace)
    ensures
        w.id != DEFAULT_WORKSPACE_ID,
        w@ == (WorkspaceView {
            workspace_type: req.workspace_type,
            status: match req.workspace_type {
                WorkspaceType::Host => WorkspaceStatus::Ready,
                WorkspaceType::Chroot => WorkspaceStatus::Pending,
            },
            ..Workspace::chroot_at(
                w.id,
                req.name@,
                requested_root(*req, working_dir@),
                WorkspaceStatus::Pending,
                w.created_at,
            )
        }),
{
    let path = match &req.path {
        Some(p) => p.clone(),
        None => match req.workspace_type {
            WorkspaceType::Host => working_dir.to_owned(),
            WorkspaceType::Chroot => {
                let area = join_path(working_dir, ".openagent/containers");
                join_path(area.as_str(), req.name.as_str())
            },
        },
    };
    let mut w = Workspace::new_chroot(req.name.as_str(), path.as_str());
    match req.workspace_type {
        WorkspaceType::Host => {
            w.workspace_type = WorkspaceType::Host;
            w.status = WorkspaceStatus::Ready;
        },
        WorkspaceType::Chroot => {},
    }
    w
}

/// The steps in the life of a workspace: from pending to building, from
/// building to ready or to the error state, and from the error state back to
/// building.
pub open spec fn is_lifecycle_step(from: WorkspaceStatus, to: WorkspaceStatus) -> bool {
    ||| (from == WorkspaceStatus::Pending && to == WorkspaceStatus::Building)
    ||| (from == WorkspaceStatus::Building && to == WorkspaceStatus::Ready)
    ||| (from == WorkspaceStatus::Building && to == WorkspaceStatus::Error)
    ||| (from == WorkspaceStatus::Error && to == WorkspaceStatus::Building)
}

/// A build that starts from a pending or failed workspace and runs to its
/// end moves the workspace by steps of its life only.
pub proof fn lemma_build_follows_lifecycle(start: WorkspaceStatus, succeeded: bool)
    requires
        start == WorkspaceStatus::Pending || start == WorkspaceStatus::Error,
    ensures
        is_lifecycle_step(start, WorkspaceStatus::Building),
        is_lifecycle_step(
            WorkspaceStatus::Building,
            if succeeded {
                WorkspaceStatus::Ready
            } else {
                WorkspaceStatus::Error
            },
        ),
{
}

/// The store after the first `n` orphans have become container workspaces,
/// the orphan at `i` under the id `ids[i]`, all made at `now`.
pub open spec fn with_orphans(
    store: Map<u128, WorkspaceView>,
    orphans: Seq<OrphanView>,
    ids: Seq<u128>,
    now: i64,
    n: int,
) -> Map<u128, WorkspaceView>
    decreases n,
{
    if n <= 0 {
        store
    } else {
        with_orphans(store, orphans, ids, now, n - 1).insert(
            ids[n - 1],
            Workspace::chroot_at(
                ids[n - 1],
                orphans[n - 1].name,
                orphans[n - 1].path,
                orphans[n - 1].status,
                now,
            ),
        )
    }
}

proof fn lemma_with_orphans(
    store: Map<u128, WorkspaceView>,
    orphans: Seq<OrphanView>,
    ids: Seq<u128>,
    now: i64,
    n: int,
)
    requires
        0 <= n <= orphans.len(),
        n <= ids.len(),
        forall|i: int| 0 <= i < n ==> !store.contains_key(#[trigger] ids[i]),
        forall|i: int, j: int| 0 <= i < j < n ==> ids[i] != ids[j],
    ensures
        forall|id: u128|
            store.contains_key(id) ==> #[trigger] with_orphans(store, orphans, ids, now, n).contains_key(
                id,
            ) && with_orphans(store, orphans, ids, now, n)[id] == store[id],
        forall|i: int|
            0 <= i < n ==> with_orphans(store, orphans, ids, now, n).contains_key(#[trigger] ids[i])
                && with_orphans(store, orphans, ids, now, n)[ids[i]] == Workspace::chroot_at(
                ids[i],
                orphans[i].name,
                orphans[i].path,
                orphans[i].status,
                now,
            ),
    decreases n,
{
    if n > 0 {
        lemma_with_orphans(store, orphans, ids, now, n - 1);
        let before = with_orphans(store, orphans, ids, now, n - 1);
        let after = with_orphans(store, orphans, ids, now, n);
        assert forall|id: u128| store.contains_key(id) implies #[trigger] after.contains_key(id)
            && after[id] == store[id] by {
            assert(before.contains_key(id));
            assert(id != ids[n - 1]);
        }
        assert forall|i: int| 0 <= i < n implies after.contains_key(#[trigger] ids[i]) && after[ids[i]]
            == Workspace::chroot_at(
            ids[i],
            orphans[i].name,
            orphans[i].path,
            orphans[i].status,
            now,
        ) by {
            if i < n - 1 {
                assert(before.contains_key(ids[i]));
                assert(ids[i] != ids[n - 1]);
            }
        }
    }
}

/// Orphan recovery does not add anything the second time. A store that has
/// taken in, under fresh ids, every orphan that a scan found, finds no
/// orphan when the same directories are scanned again.
pub proof fn lemma_restart_adds_no_workspace(
    store: Map<u128, WorkspaceView>,
    found: Seq<FoundDirectory>,
    ids: Seq<u128>,
    now: i64,
)
    requires
        ids.len() >= orphans_of(container_paths(store), found).len(),
        forall|i: int|
            0 <= i < orphans_of(container_paths(store), found).len() ==> !store.contains_key(
                #[trigger] ids[i],
            ),
        forall|i: int, j: int|
            0 <= i < j < orphans_of(container_paths(store), found).len() ==> ids[i] != ids[j],
    ensures
        orphans_of(
            container_paths(
                with_orphans(
                    store,
                    orphans_of(container_paths(store), found),
                    ids,
                    now,
                    orphans_of(container_paths(store), found).len() as int,
                ),
            ),
            found,
        ) == Seq::<OrphanView>::empty(),
{
    let known = container_paths(store);
    let orphans = orphans_of(known, found);
    let n = orphans.len() as int;
    let after = with_orphans(store, orphans, ids, now, n);
    let later = container_paths(after);
    lemma_with_orphans(store, orphans, ids, now, n);
    assert forall|p: Seq<char>| known.contains(p) implies later.contains(p) by {
        let id = choose|id: u128| #[trigger]
            store.contains_key(id) && store[id].workspace_type == WorkspaceType::Chroot
                && store[id].path == p;
        assert(after.contains_key(id) && after[id] == store[id]);
    }
    assert forall|i: int| 0 <= i < orphans.len() implies later.contains(
        (#[trigger] orphans[i]).path,
    ) by {
        assert(after.contains_key(ids[i]) && after[ids[i]].workspace_type == WorkspaceType::Chroot
            && after[ids[i]].path == orphans[i].path);
    }
    lemma_orphan_recovery_idempotent(known, later, found);
}

/// A list of workspaces is a sorted listing of a map: it is in listing
/// order, no id occurs twice in it, and it holds exactly the values of the
/// map.
pub open spec fn is_sorted_listing(list: Seq<WorkspaceView>, store: Map<u128, WorkspaceView>) -> bool {
    &&& forall|i: int, j: int|
        0 <= i < j < list.len() ==> listed_before(#[trigger] list[i], #[trigger] list[j])
    &&& forall|i: int, j: int|
        0 <= i < j < list.len() ==> (#[trigger] list[i]).id != (#[trigger] list[j]).id
    &&& forall|i: int|
        0 <= i < list.len() ==> store.contains_key((#[trigger] list[i]).id) && store[list[i].id]
            == list[i]
    &&& forall|id: u128| #[trigger]
        store.contains_key(id) ==> exists|i: int| 0 <= i < list.len() && #[trigger] list[i] == store[id]
}

proof fn lemma_listings_agree(
    a: Seq<WorkspaceView>,
    b: Seq<WorkspaceView>,
    store: Map<u128, WorkspaceView>,
    j: int,
)
    requires
        is_sorted_listing(a, store),
        is_sorted_listing(b, store),
        0 <= j < a.len(),
    ensures
        j < b.len(),
        a[j] == b[j],
    decreases j,
{
    assert(store.contains_key(a[j].id) && store[a[j].id] == a[j]);
    let p = choose|p: int| 0 <= p < b.len() && #[trigger] b[p] == store[a[j].id];
    if p < j {
        assert(store.contains_key(b[p].id) && store[b[p].id] == b[p]);
        let q = choose|q: int| 0 <= q < a.len() && #[trigger] a[q] == store[b[p].id];
        assert(a[q] == a[j]);
        if q < j {
            assert(a[q].id != a[j].id);
        } else if q > j {
            assert(a[j].id != a[q].id);
        }
        assert(q == j);
        lemma_listings_agree(a, b, store, p);
        assert(a[p] == b[p]);
        assert(a[p].id != a[j].id);
    }
    if p > j {
        assert(store.contains_key(b[j].id) && store[b[j].id] == b[j]);
        let w = choose|w: int| 0 <= w < a.len() && #[trigger] a[w] == store[b[j].id];
        if w < j {
            lemma_listings_agree(a, b, store, w);
            assert(b[w] == b[j]);
            assert(b[w].id != b[j].id);
        }
        if w > j {
            assert(listed_before(b[j], b[p]));
            assert(listed_before(a[j], a[w]));
            if a[j].name != b[j].name {
                lemma_lex_antisymmetric(a[j].name, b[j].name);
            }
            assert(a[j].id == b[j].id);
            assert(b[j].id != b[p].id);
        }
    }
}

/// A map has one sorted listing: what is written to disk is determined by
/// the workspaces of the store.
pub proof fn lemma_sorted_listing_is_unique(
    a: Seq<WorkspaceView>,
    b: Seq<WorkspaceView>,
    store: Map<u128, WorkspaceView>,
)
    requires
        is_sorted_listing(a, store),
        is_sorted_listing(b, store),
    ensures
        a == b,
{
    if a.len() > 0 {
        lemma_listings_agree(a, b, store, a.len() - 1);
    }
    if b.len() > 0 {
        lemma_listings_agree(b, a, store, b.len() - 1);
    }
    assert(a.len() == b.len());
    assert forall|j: int| 0 <= j < a.len() implies a[j] == b[j] by {
        lemma_listings_agree(a, b, store, j);
    }
    assert(a =~= b);
}

/// What is written to disk after a change is the sorted listing of the
/// workspaces that the store holds after it.
pub proof fn lemma_persisted_is_the_sorted_listing(store: WorkspaceStore)
    requires
        store.wf(),
    ensures
        is_sorted_listing(store.persisted(), store@),
{
    lemma_persisted_is_sorted_values(store);
    let list = store.persisted();
    assert forall|i: int, j: int| 0 <= i < j < list.len() implies listed_before(
        #[trigger] list[i],
        #[trigger] list[j],
    ) by {}
    assert forall|i: int, j: int| 0 <= i < j < list.len() implies (#[trigger] list[i]).id != (
    #[trigger] list[j]).id by {}
}

} // verus!

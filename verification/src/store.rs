//! The persisted aggregate: workflows, actions, repository references and
//! build history, keyed by id within each collection.
//!
//! All mutation of server state goes through these operations.  Saving is
//! upsert-by-id: an existing id is replaced in place, a new id is appended.
//! Deleting an absent id leaves the collection unchanged.  Build history
//! only grows.

use crate::graph::{BuildEdge, BuildEdgeView, BuildNode, BuildNodeView};
use vstd::pervasive::VecAdditionalExecFns;
use vstd::prelude::*;

verus! {

/// A named, versioned, persisted build-graph template.
#[derive(Debug, Clone, PartialEq)]
pub struct StoredWorkflow {
    pub id: String,
    pub name: String,
    pub repo_id: Option<String>,
    pub nodes: Vec<BuildNode>,
    pub connections: Vec<BuildEdge>,
    pub next_version: String,
    pub created_at: String,
    pub updated_at: String,
}

/// A named reusable script with declared inputs and outputs.
#[derive(Debug, Clone, PartialEq)]
pub struct StoredAction {
    pub id: String,
    pub name: String,
    pub description: String,
    pub script: String,
    pub inputs: Vec<String>,
    pub outputs: Vec<String>,
    pub created_at: String,
    pub updated_at: String,
}

/// A reference to a working-copy location.
#[derive(Debug, Clone, PartialEq)]
pub struct StoredRepo {
    pub id: String,
    pub path: String,
    pub owner: Option<String>,
    pub repo: Option<String>,
    pub default_branch: String,
    pub cloned_at: Option<String>,
}

/// One row per attempted build; never mutated after creation.
#[derive(Debug, Clone, PartialEq)]
pub struct BuildRecord {
    pub id: String,
    pub workflow_id: String,
    pub status: String,
    pub started_at: String,
    pub finished_at: Option<String>,
    pub duration_ms: Option<u64>,
    pub logs: Vec<String>,
}

/// The aggregate root held by the data store.
#[derive(Debug, Clone, PartialEq)]
pub struct ServerData {
    pub workflows: Vec<StoredWorkflow>,
    pub actions: Vec<StoredAction>,
    pub repos: Vec<StoredRepo>,
    pub build_history: Vec<BuildRecord>,
}

pub struct StoredWorkflowView {
    pub id: Seq<char>,
    pub name: Seq<char>,
    pub repo_id: Option<Seq<char>>,
    pub nodes: Seq<BuildNodeView>,
    pub connections: Seq<BuildEdgeView>,
    pub next_version: Seq<char>,
    pub created_at: Seq<char>,
    pub updated_at: Seq<char>,
}

pub struct StoredActionView {
    pub id: Seq<char>,
    pub name: Seq<char>,
    pub description: Seq<char>,
    pub script: Seq<char>,
    pub inputs: Seq<Seq<char>>,
    pub outputs: Seq<Seq<char>>,
    pub created_at: Seq<char>,
    pub updated_at: Seq<char>,
}

pub struct StoredRepoView {
    pub id: Seq<char>,
    pub path: Seq<char>,
    pub owner: Option<Seq<char>>,
    pub repo: Option<Seq<char>>,
    pub default_branch: Seq<char>,
    pub cloned_at: Option<Seq<char>>,
}

pub struct BuildRecordView {
    pub id: Seq<char>,
    pub workflow_id: Seq<char>,
    pub status: Seq<char>,
    pub started_at: Seq<char>,
    pub finished_at: Option<Seq<char>>,
    pub duration_ms: Option<u64>,
    pub logs: Seq<Seq<char>>,
}

pub struct ServerDataView {
    pub workflows: Seq<StoredWorkflowView>,
    pub actions: Seq<StoredActionView>,
    pub repos: Seq<StoredRepoView>,
    pub build_history: Seq<BuildRecordView>,
}

impl DeepView for StoredWorkflow {
    type V = StoredWorkflowView;

    open spec fn deep_view(&self) -> StoredWorkflowView {
        StoredWorkflowView {
            id: self.id@,
            name: self.name@,
            repo_id: self.repo_id.deep_view(),
            nodes: self.nodes.deep_view(),
            connections: self.connections.deep_view(),
            next_version: self.next_version@,
            created_at: self.created_at@,
            updated_at: self.updated_at@,
        }
    }
}

impl DeepView for StoredAction {
    type V = StoredActionView;

    open spec fn deep_view(&self) -> StoredActionView {
        StoredActionView {
            id: self.id@,
            name: self.name@,
            description: self.description@,
            script: self.script@,
            inputs: self.inputs.deep_view(),
            outputs: self.outputs.deep_view(),
            created_at: self.created_at@,
            updated_at: self.updated_at@,
        }
    }
}

impl DeepView for StoredRepo {
    type V = StoredRepoView;

    open spec fn deep_view(&self) -> StoredRepoView {
        StoredRepoView {
            id: self.id@,
            path: self.path@,
            owner: self.owner.deep_view(),
            repo: self.repo.deep_view(),
            default_branch: self.default_branch@,
            cloned_at: self.cloned_at.deep_view(),
        }
    }
}

impl DeepView for BuildRecord {
    type V = BuildRecordView;

    open spec fn deep_view(&self) -> BuildRecordView {
        BuildRecordView {
            id: self.id@,
            workflow_id: self.workflow_id@,
            status: self.status@,
            started_at: self.started_at@,
            finished_at: self.finished_at.deep_view(),
            duration_ms: self.duration_ms,
            logs: self.logs.deep_view(),
        }
    }
}

impl DeepView for ServerData {
    type V = ServerDataView;

    open spec fn deep_view(&self) -> ServerDataView {
        ServerDataView {
            workflows: self.workflows.deep_view(),
            actions: self.actions.deep_view(),
            repos: self.repos.deep_view(),
            build_history: self.build_history.deep_view(),
        }
    }
}

/// Some workflow in the sequence carries this id.
pub open spec fn has_workflow(ws: Seq<StoredWorkflow>, id: Seq<char>) -> bool {
    exists|i: int| 0 <= i < ws.len() && ws[i].id@ == id
}

/// The first position holding this workflow id, or -1 when absent.
pub open spec fn workflow_index(ws: Seq<StoredWorkflow>, id: Seq<char>) -> int
    decreases ws.len(),
{
    if ws.len() == 0 {
        -1
    } else if ws[0].id@ == id {
        0
    } else {
        let r = workflow_index(ws.drop_first(), id);
        if r < 0 {
            -1
        } else {
            r + 1
        }
    }
}

pub proof fn lemma_workflow_index(ws: Seq<StoredWorkflow>, id: Seq<char>)
    ensures
        has_workflow(ws, id) <==> workflow_index(ws, id) >= 0,
        workflow_index(ws, id) >= 0 ==> {
            let r = workflow_index(ws, id);
            &&& r < ws.len()
            &&& ws[r].id@ == id
            &&& forall|j: int| 0 <= j < r ==> ws[j].id@ != id
        },
    decreases ws.len(),
{
    if ws.len() > 0 && ws[0].id@ != id {
        let sub = ws.drop_first();
        lemma_workflow_index(sub, id);
        if has_workflow(ws, id) {
            let i = choose|i: int| 0 <= i < ws.len() && ws[i].id@ == id;
            assert(sub[i - 1].id@ == id);
            assert(has_workflow(sub, id));
        }
        if workflow_index(sub, id) >= 0 {
            let r = workflow_index(sub, id);
            assert(ws[r + 1].id@ == id);
            assert forall|j: int| 0 <= j < r + 1 implies ws[j].id@ != id by {
                if j > 0 {
                    assert(sub[j - 1].id@ != id);
                }
            }
            assert(has_workflow(ws, id));
        }
    }
}

/// Some action in the sequence carries this id.
pub open spec fn has_action(ac: Seq<StoredAction>, id: Seq<char>) -> bool {
    exists|i: int| 0 <= i < ac.len() && ac[i].id@ == id
}

/// The first position holding this action id, or -1 when absent.
pub open spec fn action_index(ac: Seq<StoredAction>, id: Seq<char>) -> int
    decreases ac.len(),
{
    if ac.len() == 0 {
        -1
    } else if ac[0].id@ == id {
        0
    } else {
        let r = action_index(ac.drop_first(), id);
        if r < 0 {
            -1
        } else {
            r + 1
        }
    }
}

pub proof fn lemma_action_index(ac: Seq<StoredAction>, id: Seq<char>)
    ensures
        has_action(ac, id) <==> action_index(ac, id) >= 0,
        action_index(ac, id) >= 0 ==> {
            let r = action_index(ac, id);
            &&& r < ac.len()
            &&& ac[r].id@ == id
            &&& forall|j: int| 0 <= j < r ==> ac[j].id@ != id
        },
    decreases ac.len(),
{
    if ac.len() > 0 && ac[0].id@ != id {
        let sub = ac.drop_first();
        lemma_action_index(sub, id);
        if has_action(ac, id) {
            let i = choose|i: int| 0 <= i < ac.len() && ac[i].id@ == id;
            assert(sub[i - 1].id@ == id);
            assert(has_action(sub, id));
        }
        if action_index(sub, id) >= 0 {
            let r = action_index(sub, id);
            assert(ac[r + 1].id@ == id);
            assert forall|j: int| 0 <= j < r + 1 implies ac[j].id@ != id by {
                if j > 0 {
                    assert(sub[j - 1].id@ != id);
                }
            }
            assert(has_action(ac, id));
        }
    }
}

/// The elements kept when deleting the workflow id `id`.
pub open spec fn keeps_workflow(id: Seq<char>) -> spec_fn(StoredWorkflow) -> bool {
    |w: StoredWorkflow| w.id@ != id
}

/// The elements kept when deleting the action id `id`.
pub open spec fn keeps_action(id: Seq<char>) -> spec_fn(StoredAction) -> bool {
    |a: StoredAction| a.id@ != id
}

/// Keeping every element leaves a sequence unchanged.
proof fn lemma_filter_keeps_all<T>(s: Seq<T>, pred: spec_fn(T) -> bool)
    requires
        forall|i: int| 0 <= i < s.len() ==> pred(#[trigger] s[i]),
    ensures
        s.filter(pred) == s,
    decreases s.len(),
{
    reveal(Seq::filter);
    if s.len() > 0 {
        lemma_filter_keeps_all(s.drop_last(), pred);
        assert(s.drop_last().push(s.last()) =~= s);
    }
}

impl ServerData {
    /// The empty aggregate a fresh server starts from.
    pub fn new() -> (r: ServerData)
        ensures
            r.workflows@.len() == 0,
            r.actions@.len() == 0,
            r.repos@.len() == 0,
            r.build_history@.len() == 0,
    {
        ServerData {
            workflows: Vec::new(),
            actions: Vec::new(),
            repos: Vec::new(),
            build_history: Vec::new(),
        }
    }

    /// Upsert by id: replaces the first workflow with `w`'s id in place, or
    /// appends `w` when the id is new.  The other collections are untouched.
    pub fn save_workflow(&mut self, w: StoredWorkflow)
        ensures
            final(self).actions == old(self).actions,
            final(self).repos == old(self).repos,
            final(self).build_history == old(self).build_history,
            has_workflow(old(self).workflows@, w.id@) ==> final(self).workflows@ == old(
                self,
            ).workflows@.update(workflow_index(old(self).workflows@, w.id@), w),
            !has_workflow(old(self).workflows@, w.id@) ==> final(self).workflows@ == old(
                self,
            ).workflows@.push(w),
            final(self).workflows@.len() == old(self).workflows@.len() + (
            if has_workflow(old(self).workflows@, w.id@) {
                0int
            } else {
                1int
            }),
    {
        proof {
            lemma_workflow_index(self.workflows@, w.id@);
        }
        let mut i: usize = 0;
        while i < self.workflows.len()
            invariant
                i <= self.workflows@.len(),
                forall|j: int| 0 <= j < i ==> self.workflows@[j].id@ != w.id@,
                *self == *old(self),
            decreases self.workflows@.len() - i,
        {
            if self.workflows[i].id == w.id {
                proof {
                    lemma_workflow_index(self.workflows@, w.id@);
                    assert(workflow_index(self.workflows@, w.id@) == i as int);
                }
                self.workflows.set(i, w);
                return ;
            }
            i += 1;
        }
        self.workflows.push(w);
    }

    /// Removes every workflow carrying `id`; a no-op when the id is absent.
    pub fn delete_workflow(&mut self, id: &String)
        ensures
            final(self).actions == old(self).actions,
            final(self).repos == old(self).repos,
            final(self).build_history == old(self).build_history,
            final(self).workflows@ == old(self).workflows@.filter(keeps_workflow(id@)),
            !has_workflow(old(self).workflows@, id@) ==> final(self).workflows@ == old(
                self,
            ).workflows@,
    {
        let ghost orig = self.workflows@;
        let ghost pred = keeps_workflow(id@);
        let n0 = self.workflows.len();
        proof {
            assert(orig.len() == n0 as int);
        }
        let mut i: usize = 0;
        let mut scanned: usize = 0;
        proof {
            reveal_with_fuel(Seq::<StoredWorkflow>::filter, 2);
            assert(orig.take(0) =~= Seq::<StoredWorkflow>::empty());
            assert(orig.skip(0) =~= orig);
            assert(orig.take(0).filter(pred) + orig =~= orig);
        }
        while i < self.workflows.len()
            invariant
                self.actions == old(self).actions,
                self.repos == old(self).repos,
                self.build_history == old(self).build_history,
                scanned <= orig.len(),
                orig.len() <= usize::MAX,
                i <= scanned,
                i as int == orig.take(scanned as int).filter(pred).len(),
                self.workflows@ == orig.take(scanned as int).filter(pred) + orig.skip(
                    scanned as int,
                ),
                pred == keeps_workflow(id@),
            decreases orig.len() - scanned,
        {
            proof {
                if scanned as int == orig.len() {
                    assert(orig.skip(scanned as int) =~= Seq::<StoredWorkflow>::empty());
                    assert(self.workflows@.len() == i);
                }
                assert(orig.skip(scanned as int)[0] == orig[scanned as int]);
                assert(self.workflows@[i as int] == orig[scanned as int]);
                assert(orig.take(scanned + 1).drop_last() =~= orig.take(scanned as int));
                assert(orig.take(scanned + 1).last() == orig[scanned as int]);
                reveal_with_fuel(Seq::<StoredWorkflow>::filter, 2);
            }
            let keep = !(self.workflows[i].id == *id);
            let ghost pre = self.workflows@;
            if keep {
                proof {
                    assert(pred(orig[scanned as int]));
                    assert(orig.take(scanned + 1).filter(pred) == orig.take(
                        scanned as int,
                    ).filter(pred).push(orig[scanned as int]));
                    assert(orig.take(scanned as int).filter(pred).push(orig[scanned as int])
                        + orig.skip(scanned + 1) =~= orig.take(scanned as int).filter(pred)
                        + orig.skip(scanned as int));
                }
                i += 1;
            } else {
                let _removed = self.workflows.remove(i);
                proof {
                    assert(!pred(orig[scanned as int]));
                    assert(orig.take(scanned + 1).filter(pred) == orig.take(
                        scanned as int,
                    ).filter(pred));
                    assert(pre.remove(i as int) =~= orig.take(scanned as int).filter(pred)
                        + orig.skip(scanned + 1));
                }
            }
            scanned += 1;
        }
        proof {
            if (scanned as int) < orig.len() {
                assert(orig.skip(scanned as int).len() > 0);
            }
            assert(orig.take(orig.len() as int) =~= orig);
            assert(orig.skip(orig.len() as int) =~= Seq::<StoredWorkflow>::empty());
            assert(self.workflows@ =~= orig.filter(pred));
            if !has_workflow(orig, id@) {
                assert forall|k: int| 0 <= k < orig.len() implies pred(#[trigger] orig[k]) by {
                    if orig[k].id@ == id@ {
                        assert(has_workflow(orig, id@));
                    }
                }
                lemma_filter_keeps_all(orig, pred);
            }
        }
    }

    /// Upsert by id for actions, as for workflows.
    pub fn save_action(&mut self, a: StoredAction)
        ensures
            final(self).workflows == old(self).workflows,
            final(self).repos == old(self).repos,
            final(self).build_history == old(self).build_history,
            has_action(old(self).actions@, a.id@) ==> final(self).actions@ == old(
                self,
            ).actions@.update(action_index(old(self).actions@, a.id@), a),
            !has_action(old(self).actions@, a.id@) ==> final(self).actions@ == old(
                self,
            ).actions@.push(a),
            final(self).actions@.len() == old(self).actions@.len() + (
            if has_action(old(self).actions@, a.id@) {
                0int
            } else {
                1int
            }),
    {
        proof {
            lemma_action_index(self.actions@, a.id@);
        }
        let mut i: usize = 0;
        while i < self.actions.len()
            invariant
                i <= self.actions@.len(),
                forall|j: int| 0 <= j < i ==> self.actions@[j].id@ != a.id@,
                *self == *old(self),
            decreases self.actions@.len() - i,
        {
            if self.actions[i].id == a.id {
                proof {
                    lemma_action_index(self.actions@, a.id@);
                    assert(action_index(self.actions@, a.id@) == i as int);
                }
                self.actions.set(i, a);
                return ;
            }
            i += 1;
        }
        self.actions.push(a);
    }

    /// Removes every action carrying `id`; a no-op when the id is absent.
    pub fn delete_action(&mut self, id: &String)
        ensures
            final(self).workflows == old(self).workflows,
            final(self).repos == old(self).repos,
            final(self).build_history == old(self).build_history,
            final(self).actions@ == old(self).actions@.filter(keeps_action(id@)),
            !has_action(old(self).actions@, id@) ==> final(self).actions@ == old(self).actions@,
    {
        let ghost orig = self.actions@;
        let ghost pred = keeps_action(id@);
        let n0 = self.actions.len();
        proof {
            assert(orig.len() == n0 as int);
        }
        let mut i: usize = 0;
        let mut scanned: usize = 0;
        proof {
            reveal_with_fuel(Seq::<StoredAction>::filter, 2);
            assert(orig.take(0) =~= Seq::<StoredAction>::empty());
            assert(orig.skip(0) =~= orig);
            assert(orig.take(0).filter(pred) + orig =~= orig);
        }
        while i < self.actions.len()
            invariant
                self.workflows == old(self).workflows,
                self.repos == old(self).repos,
                self.build_history == old(self).build_history,
                scanned <= orig.len(),
                orig.len() <= usize::MAX,
                i <= scanned,
                i as int == orig.take(scanned as int).filter(pred).len(),
                self.actions@ == orig.take(scanned as int).filter(pred) + orig.skip(
                    scanned as int,
                ),
                pred == keeps_action(id@),
            decreases orig.len() - scanned,
        {
            proof {
                if scanned as int == orig.len() {
                    assert(orig.skip(scanned as int) =~= Seq::<StoredAction>::empty());
                    assert(self.actions@.len() == i);
                }
                assert(orig.skip(scanned as int)[0] == orig[scanned as int]);
                assert(self.actions@[i as int] == orig[scanned as int]);
                assert(orig.take(scanned + 1).drop_last() =~= orig.take(scanned as int));
                assert(orig.take(scanned + 1).last() == orig[scanned as int]);
                reveal_with_fuel(Seq::<StoredAction>::filter, 2);
            }
            let keep = !(self.actions[i].id == *id);
            let ghost pre = self.actions@;
            if keep {
                proof {
                    assert(pred(orig[scanned as int]));
                    assert(orig.take(scanned + 1).filter(pred) == orig.take(
                        scanned as int,
                    ).filter(pred).push(orig[scanned as int]));
                    assert(orig.take(scanned as int).filter(pred).push(orig[scanned as int])
                        + orig.skip(scanned + 1) =~= orig.take(scanned as int).filter(pred)
                        + orig.skip(scanned as int));
                }
                i += 1;
            } else {
                let _removed = self.actions.remove(i);
                proof {
                    assert(!pred(orig[scanned as int]));
                    assert(orig.take(scanned + 1).filter(pred) == orig.take(
                        scanned as int,
                    ).filter(pred));
                    assert(pre.remove(i as int) =~= orig.take(scanned as int).filter(pred)
                        + orig.skip(scanned + 1));
                }
            }
            scanned += 1;
        }
        proof {
            if (scanned as int) < orig.len() {
                assert(orig.skip(scanned as int).len() > 0);
            }
            assert(orig.take(orig.len() as int) =~= orig);
            assert(orig.skip(orig.len() as int) =~= Seq::<StoredAction>::empty());
            assert(self.actions@ =~= orig.filter(pred));
            if !has_action(orig, id@) {
                assert forall|k: int| 0 <= k < orig.len() implies pred(#[trigger] orig[k]) by {
                    if orig[k].id@ == id@ {
                        assert(has_action(orig, id@));
                    }
                }
                lemma_filter_keeps_all(orig, pred);
            }
        }
    }

    /// Appends one build record; history never shrinks.
    pub fn push_build_record(&mut self, rec: BuildRecord)
        ensures
            final(self).workflows == old(self).workflows,
            final(self).actions == old(self).actions,
            final(self).repos == old(self).repos,
            final(self).build_history@ == old(self).build_history@.push(rec),
    {
        self.build_history.push(rec);
    }

    /// The first stored action carrying `id`, if any.
    pub fn find_action(&self, id: &String) -> (r: Option<&StoredAction>)
        ensures
            match r {
                Some(a) => has_action(self.actions@, id@) && *a == self.actions@[action_index(
                    self.actions@,
                    id@,
                )] && a.id@ == id@,
                None => !has_action(self.actions@, id@),
            },
    {
        proof {
            lemma_action_index(self.actions@, id@);
        }
        let mut i: usize = 0;
        while i < self.actions.len()
            invariant
                i <= self.actions@.len(),
                forall|j: int| 0 <= j < i ==> self.actions@[j].id@ != id@,
            decreases self.actions@.len() - i,
        {
            if self.actions[i].id == *id {
                proof {
                    lemma_action_index(self.actions@, id@);
                    assert(action_index(self.actions@, id@) == i as int);
                }
                return Some(&self.actions[i]);
            }
            i += 1;
        }
        None
    }
}

impl StoredWorkflow {
    /// A copy whose contents equal this workflow's, field by field.
    pub fn duplicate(&self) -> (r: StoredWorkflow)
        ensures
            r.deep_view() == self.deep_view(),
            r.id@ == self.id@,
    {
        let mut nodes: Vec<BuildNode> = Vec::new();
        let mut i: usize = 0;
        while i < self.nodes.len()
            invariant
                i <= self.nodes@.len(),
                nodes@.len() == i,
                forall|j: int| 0 <= j < i ==> nodes@[j] == self.nodes@[j],
            decreases self.nodes@.len() - i,
        {
            nodes.push(self.nodes[i].duplicate());
            i += 1;
        }
        let mut connections: Vec<BuildEdge> = Vec::new();
        let mut k: usize = 0;
        while k < self.connections.len()
            invariant
                k <= self.connections@.len(),
                connections@.len() == k,
                forall|j: int| 0 <= j < k ==> connections@[j] == self.connections@[j],
            decreases self.connections@.len() - k,
        {
            connections.push(self.connections[k].duplicate());
            k += 1;
        }
        let r = StoredWorkflow {
            id: self.id.clone(),
            name: self.name.clone(),
            repo_id: match &self.repo_id {
                Some(s) => Some(s.clone()),
                None => None,
            },
            nodes,
            connections,
            next_version: self.next_version.clone(),
            created_at: self.created_at.clone(),
            updated_at: self.updated_at.clone(),
        };
        proof {
            assert(r.nodes.deep_view() =~= self.nodes.deep_view());
            assert(r.connections.deep_view() =~= self.connections.deep_view());
        }
        r
    }
}

/// A copy of a string list whose contents equal the original's.
pub fn duplicate_strings(v: &Vec<String>) -> (r: Vec<String>)
    ensures
        r.deep_view() == v.deep_view(),
        r@.len() == v@.len(),
{
    let mut r: Vec<String> = Vec::new();
    let mut i: usize = 0;
    while i < v.len()
        invariant
            i <= v@.len(),
            r@.len() == i,
            forall|j: int| 0 <= j < i ==> r@[j] == v@[j],
        decreases v@.len() - i,
    {
        r.push(v[i].clone());
        i += 1;
    }
    proof {
        assert(r.deep_view() =~= v.deep_view());
    }
    r
}

impl StoredAction {
    /// A copy whose contents equal this action's, field by field.
    pub fn duplicate(&self) -> (r: StoredAction)
        ensures
            r.deep_view() == self.deep_view(),
            r.id@ == self.id@,
            r.script@ == self.script@,
    {
        let r = StoredAction {
            id: self.id.clone(),
            name: self.name.clone(),
            description: self.description.clone(),
            script: self.script.clone(),
            inputs: duplicate_strings(&self.inputs),
            outputs: duplicate_strings(&self.outputs),
            created_at: self.created_at.clone(),
            updated_at: self.updated_at.clone(),
        };
        r
    }
}

impl StoredRepo {
    /// A copy whose contents equal this reference's, field by field.
    pub fn duplicate(&self) -> (r: StoredRepo)
        ensures
            r.deep_view() == self.deep_view(),
            r.id@ == self.id@,
    {
        StoredRepo {
            id: self.id.clone(),
            path: self.path.clone(),
            owner: match &self.owner {
                Some(s) => Some(s.clone()),
                None => None,
            },
            repo: match &self.repo {
                Some(s) => Some(s.clone()),
                None => None,
            },
            default_branch: self.default_branch.clone(),
            cloned_at: match &self.cloned_at {
                Some(s) => Some(s.clone()),
                None => None,
            },
        }
    }
}

impl BuildRecord {
    /// A copy whose contents equal this record's, field by field.
    pub fn duplicate(&self) -> (r: BuildRecord)
        ensures
            r.deep_view() == self.deep_view(),
    {
        BuildRecord {
            id: self.id.clone(),
            workflow_id: self.workflow_id.clone(),
            status: self.status.clone(),
            started_at: self.started_at.clone(),
            finished_at: match &self.finished_at {
                Some(s) => Some(s.clone()),
                None => None,
            },
            duration_ms: self.duration_ms,
            logs: duplicate_strings(&self.logs),
        }
    }
}

/// A copy of a workflow list whose contents equal the original's.
pub fn duplicate_workflows(v: &Vec<StoredWorkflow>) -> (r: Vec<StoredWorkflow>)
    ensures
        r.deep_view() == v.deep_view(),
        r@.len() == v@.len(),
{
    let mut r: Vec<StoredWorkflow> = Vec::new();
    let mut i: usize = 0;
    while i < v.len()
        invariant
            i <= v@.len(),
            r@.len() == i,
            forall|j: int| 0 <= j < i ==> r@[j].deep_view() == v@[j].deep_view(),
        decreases v@.len() - i,
    {
        r.push(v[i].duplicate());
        i += 1;
    }
    proof {
        assert(r.deep_view() =~= v.deep_view());
    }
    r
}

/// A copy of an action list whose contents equal the original's.
pub fn duplicate_actions(v: &Vec<StoredAction>) -> (r: Vec<StoredAction>)
    ensures
        r.deep_view() == v.deep_view(),
        r@.len() == v@.len(),
{
    let mut r: Vec<StoredAction> = Vec::new();
    let mut i: usize = 0;
    while i < v.len()
        invariant
            i <= v@.len(),
            r@.len() == i,
            forall|j: int| 0 <= j < i ==> r@[j].deep_view() == v@[j].deep_view(),
        decreases v@.len() - i,
    {
        r.push(v[i].duplicate());
        i += 1;
    }
    proof {
        assert(r.deep_view() =~= v.deep_view());
    }
    r
}

/// A copy of a repo-reference list whose contents equal the original's.
pub fn duplicate_repos(v: &Vec<StoredRepo>) -> (r: Vec<StoredRepo>)
    ensures
        r.deep_view() == v.deep_view(),
        r@.len() == v@.len(),
{
    let mut r: Vec<StoredRepo> = Vec::new();
    let mut i: usize = 0;
    while i < v.len()
        invariant
            i <= v@.len(),
            r@.len() == i,
            forall|j: int| 0 <= j < i ==> r@[j].deep_view() == v@[j].deep_view(),
        decreases v@.len() - i,
    {
        r.push(v[i].duplicate());
        i += 1;
    }
    proof {
        assert(r.deep_view() =~= v.deep_view());
    }
    r
}

} // verus!

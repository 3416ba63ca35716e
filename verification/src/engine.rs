//! The sync engine's decisions. Both sync paths -- the periodic full
//! reconciliation and event-driven partial updates -- go through the same
//! step: compare each fetched value's hash with the recorded one, write what
//! changed, remove what is gone, and record the result. The engine plans that
//! step from the fetched data and its state; the caller carries out the file
//! operations in order, stops at the first failure, and commits the recorded
//! updates only when every operation succeeded.
use vstd::prelude::*;

use crate::digest::{hash_value, law_hash_tells_values_apart, sha256, value_hash};
use crate::filewriter::{has_parent_segment, mirror_path, valid_name, FileWriter, PathError};
use crate::provider::{ChangeEvent, Operation, Parameter};
use crate::state::{apply_updates, updates_view, StateEntry, StateStore};
use crate::text::{copy_string, same_text};

verus! {

/// One step of a sync, over views: write a parameter's value, or remove a
/// previously mirrored name.
pub enum Step {
    Write(Seq<char>, Seq<char>, i64),
    Remove(Seq<char>),
}

/// The parameter name a step is about.
pub open spec fn step_name(s: Step) -> Seq<char> {
    match s {
        Step::Write(n, _, _) => n,
        Step::Remove(n) => n,
    }
}

/// The state update a step records.
pub open spec fn step_update(s: Step) -> (Seq<char>, Option<(Seq<char>, i64)>) {
    match s {
        Step::Write(n, v, ver) => (n, Some((value_hash(v), ver))),
        Step::Remove(n) => (n, None),
    }
}

/// The views of a sequence of strings.
pub open spec fn strings_view(v: Seq<String>) -> Seq<Seq<char>> {
    v.map_values(|s: String| s@)
}

/// The names of a sequence of parameters.
pub open spec fn param_names(ps: Seq<Parameter>) -> Seq<Seq<char>> {
    ps.map_values(|p: Parameter| p.name@)
}

/// The recorded hash of `p`'s name already matches the hash of its value.
pub open spec fn unchanged(state: Map<Seq<char>, (Seq<char>, i64)>, p: Parameter) -> bool {
    state.contains_key(p.name@) && state[p.name@].0 == value_hash(p.value@)
}

/// A write for every parameter whose value differs from what is recorded, in order.
pub open spec fn write_steps(state: Map<Seq<char>, (Seq<char>, i64)>, ps: Seq<Parameter>) -> Seq<Step>
    decreases ps.len(),
{
    if ps.len() == 0 {
        Seq::empty()
    } else {
        let rest = write_steps(state, ps.drop_last());
        let p = ps.last();
        if unchanged(state, p) {
            rest
        } else {
            rest.push(Step::Write(p.name@, p.value@, p.version))
        }
    }
}

/// A removal for every known name that no parameter has any more, in order.
pub open spec fn prune_steps(known: Seq<Seq<char>>, ps: Seq<Parameter>) -> Seq<Step>
    decreases known.len(),
{
    if known.len() == 0 {
        Seq::empty()
    } else {
        let rest = prune_steps(known.drop_last(), ps);
        if param_names(ps).contains(known.last()) {
            rest
        } else {
            rest.push(Step::Remove(known.last()))
        }
    }
}

/// What a full sync does: write what changed, then remove what is gone.
pub open spec fn full_sync_steps(
    state: Map<Seq<char>, (Seq<char>, i64)>,
    known: Seq<Seq<char>>,
    ps: Seq<Parameter>,
) -> Seq<Step> {
    write_steps(state, ps) + prune_steps(known, ps)
}

/// The names of created or updated parameters, in event order.
pub open spec fn fetch_list(events: Seq<ChangeEvent>) -> Seq<Seq<char>>
    decreases events.len(),
{
    if events.len() == 0 {
        Seq::empty()
    } else {
        let rest = fetch_list(events.drop_last());
        if events.last().operation == Operation::Deleted {
            rest
        } else {
            rest.push(events.last().name@)
        }
    }
}

/// The names of deleted parameters, in event order.
pub open spec fn deleted_list(events: Seq<ChangeEvent>) -> Seq<Seq<char>>
    decreases events.len(),
{
    if events.len() == 0 {
        Seq::empty()
    } else {
        let rest = deleted_list(events.drop_last());
        if events.last().operation == Operation::Deleted {
            rest.push(events.last().name@)
        } else {
            rest
        }
    }
}

/// The requested names that the fetch did not return: they were deleted
/// in the meantime.
pub open spec fn missing_names(wanted: Seq<Seq<char>>, ps: Seq<Parameter>) -> Seq<Seq<char>>
    decreases wanted.len(),
{
    if wanted.len() == 0 {
        Seq::empty()
    } else {
        let rest = missing_names(wanted.drop_last(), ps);
        if param_names(ps).contains(wanted.last()) {
            rest
        } else {
            rest.push(wanted.last())
        }
    }
}

/// A removal for every given name that is recorded, in order.
pub open spec fn delete_steps(state: Map<Seq<char>, (Seq<char>, i64)>, names: Seq<Seq<char>>) -> Seq<Step>
    decreases names.len(),
{
    if names.len() == 0 {
        Seq::empty()
    } else {
        let rest = delete_steps(state, names.drop_last());
        if state.contains_key(names.last()) {
            rest.push(Step::Remove(names.last()))
        } else {
            rest
        }
    }
}

/// The names an event batch removes: those reported deleted, then those
/// requested but not returned.
pub open spec fn delete_candidates(events: Seq<ChangeEvent>, ps: Seq<Parameter>) -> Seq<Seq<char>> {
    deleted_list(events) + missing_names(fetch_list(events), ps)
}

/// What applying a batch of change events does, given the parameters
/// fetched for its created/updated names.
pub open spec fn event_steps(
    state: Map<Seq<char>, (Seq<char>, i64)>,
    events: Seq<ChangeEvent>,
    ps: Seq<Parameter>,
) -> Seq<Step> {
    write_steps(state, ps) + delete_steps(state, delete_candidates(events, ps))
}

/// `a` is a prefix of `b`.
pub open spec fn is_prefix<T>(a: Seq<T>, b: Seq<T>) -> bool {
    a.len() <= b.len() && b.take(a.len() as int) =~= a
}

/// A file operation to carry out, in plan order.
#[derive(Debug)]
pub enum FileOp {
    /// Write `value` to `path` (creating parent directories as needed).
    Write { name: String, path: String, value: String },
    /// Remove `path`; a file that is already gone is not an error.
    Remove { name: String, path: String },
}

/// `op` carries out step `s` for a writer rooted at `root`.
pub open spec fn op_for(op: FileOp, root: Seq<char>, s: Step) -> bool {
    match (op, s) {
        (FileOp::Write { name, path, value }, Step::Write(n, v, _)) => {
            name@ == n && path@ == mirror_path(root, n) && value@ == v
        },
        (FileOp::Remove { name, path }, Step::Remove(n)) => {
            name@ == n && path@ == mirror_path(root, n)
        },
        _ => false,
    }
}

/// `e` is the error the writer gives for name `n`.
pub open spec fn error_for(e: PathError, n: Seq<char>) -> bool {
    match e {
        PathError::NotAbsolute(m) => m@ == n && !(n.len() > 0 && n[0] == '/'),
        PathError::ParentSegment(m) => m@ == n && n.len() > 0 && n[0] == '/' && has_parent_segment(n),
    }
}

/// What to record once every file operation succeeded.
pub struct SyncCommit {
    /// State updates, in order.
    pub updates: Vec<(String, Option<StateEntry>)>,
    /// The names that changed, in order (the ones to notify).
    pub changed: Vec<String>,
}

/// What is left to do once a sync is recorded.
pub struct Settled {
    /// The record changed and must be persisted.
    pub persist: bool,
    /// The names that changed, in order.
    pub changed: Vec<String>,
    /// Whether the change notifier is told `changed`.
    pub notify: bool,
}

/// A planned sync: the file operations to carry out in order, then either
/// what to record, or the error that stops the sync after those operations.
pub struct SyncPlan {
    pub ops: Vec<FileOp>,
    pub outcome: Result<SyncCommit, PathError>,
}

/// `ops`, `updates` and `changed` carry out the steps `st` in order.
pub open spec fn staged(
    ops: Seq<FileOp>,
    updates: Seq<(String, Option<StateEntry>)>,
    changed: Seq<String>,
    root: Seq<char>,
    st: Seq<Step>,
) -> bool {
    &&& ops.len() == st.len()
    &&& forall|j: int| 0 <= j < st.len() ==> valid_name(step_name(#[trigger] st[j])) && op_for(ops[j], root, st[j])
    &&& updates_view(updates) == st.map_values(|s: Step| step_update(s))
    &&& strings_view(changed) == st.map_values(|s: Step| step_name(s))
}

/// `plan` carries out `steps` for a writer rooted at `root`: every operation
/// up to the first step whose name cannot be mapped to a file; then the error
/// for that name, or, when there is none, the updates and changed names of all
/// the steps.
pub open spec fn plan_follows(plan: SyncPlan, root: Seq<char>, steps: Seq<Step>) -> bool {
    &&& plan.ops@.len() <= steps.len()
    &&& forall|j: int| 0 <= j < plan.ops@.len() ==> valid_name(step_name(#[trigger] steps[j])) && op_for(plan.ops@[j], root, steps[j])
    &&& match plan.outcome {
        Ok(c) => {
            &&& plan.ops@.len() == steps.len()
            &&& updates_view(c.updates@) == steps.map_values(|s: Step| step_update(s))
            &&& strings_view(c.changed@) == steps.map_values(|s: Step| step_name(s))
        },
        Err(e) => {
            &&& plan.ops@.len() < steps.len()
            &&& !valid_name(step_name(steps[plan.ops@.len() as int]))
            &&& error_for(e, step_name(steps[plan.ops@.len() as int]))
        },
    }
}

proof fn lemma_prefix_trans<T>(a: Seq<T>, b: Seq<T>, c: Seq<T>)
    requires
        is_prefix(a, b),
        is_prefix(b, c),
    ensures
        is_prefix(a, c),
{
    assert(c.take(a.len() as int) =~= b.take(a.len() as int));
}

proof fn lemma_prefix_concat<T>(a: Seq<T>, b: Seq<T>, c: Seq<T>)
    requires
        is_prefix(b, c),
    ensures
        is_prefix(a + b, a + c),
{
    assert((a + c).take((a + b).len() as int) =~= a + b);
}

proof fn lemma_write_steps_prefix(state: Map<Seq<char>, (Seq<char>, i64)>, ps: Seq<Parameter>, i: int)
    requires
        0 <= i <= ps.len(),
    ensures
        is_prefix(write_steps(state, ps.take(i)), write_steps(state, ps)),
    decreases ps.len() - i,
{
    if i == ps.len() {
        assert(ps.take(i) =~= ps);
    } else {
        lemma_write_steps_prefix(state, ps, i + 1);
        assert(ps.take(i + 1).drop_last() =~= ps.take(i));
        lemma_prefix_trans(write_steps(state, ps.take(i)), write_steps(state, ps.take(i + 1)), write_steps(state, ps));
    }
}

proof fn lemma_prune_steps_prefix(known: Seq<Seq<char>>, ps: Seq<Parameter>, i: int)
    requires
        0 <= i <= known.len(),
    ensures
        is_prefix(prune_steps(known.take(i), ps), prune_steps(known, ps)),
    decreases known.len() - i,
{
    if i == known.len() {
        assert(known.take(i) =~= known);
    } else {
        lemma_prune_steps_prefix(known, ps, i + 1);
        assert(known.take(i + 1).drop_last() =~= known.take(i));
        lemma_prefix_trans(prune_steps(known.take(i), ps), prune_steps(known.take(i + 1), ps), prune_steps(known, ps));
    }
}

proof fn lemma_delete_steps_prefix(state: Map<Seq<char>, (Seq<char>, i64)>, names: Seq<Seq<char>>, i: int)
    requires
        0 <= i <= names.len(),
    ensures
        is_prefix(delete_steps(state, names.take(i)), delete_steps(state, names)),
    decreases names.len() - i,
{
    if i == names.len() {
        assert(names.take(i) =~= names);
    } else {
        lemma_delete_steps_prefix(state, names, i + 1);
        assert(names.take(i + 1).drop_last() =~= names.take(i));
        lemma_prefix_trans(delete_steps(state, names.take(i)), delete_steps(state, names.take(i + 1)), delete_steps(state, names));
    }
}

/// Whether some parameter is named `name`.
fn params_contain(ps: &Vec<Parameter>, name: &str) -> (r: bool)
    ensures
        r == param_names(ps@).contains(name@),
{
    let mut i: usize = 0;
    while i < ps.len()
        invariant
            i <= ps@.len(),
            forall|j: int| 0 <= j < i ==> ps@[j].name@ != name@,
        decreases ps.len() - i,
    {
        if same_text(ps[i].name.as_str(), name) {
            assert(param_names(ps@)[i as int] == name@);
            return true;
        }
        i = i + 1;
    }
    proof {
        if param_names(ps@).contains(name@) {
            let j = choose|j: int| 0 <= j < param_names(ps@).len() && param_names(ps@)[j] == name@;
            assert(ps@[j].name@ == name@);
        }
    }
    false
}

proof fn lemma_staged_lengths(
    ops: Seq<FileOp>,
    updates: Seq<(String, Option<StateEntry>)>,
    changed: Seq<String>,
    root: Seq<char>,
    st: Seq<Step>,
)
    requires
        staged(ops, updates, changed, root, st),
    ensures
        updates.len() == st.len(),
        changed.len() == st.len(),
{
    assert(updates_view(updates).len() == updates.len());
    assert(strings_view(changed).len() == changed.len());
}

/// Stages a write of `p`'s value (whose hash is `hash`).
fn stage_write(
    writer: &FileWriter,
    p: &Parameter,
    hash: String,
    ops: &mut Vec<FileOp>,
    updates: &mut Vec<(String, Option<StateEntry>)>,
    changed: &mut Vec<String>,
    Ghost(st): Ghost<Seq<Step>>,
) -> (r: Result<(), PathError>)
    requires
        hash@ == value_hash(p.value@),
        staged(old(ops)@, old(updates)@, old(changed)@, writer.root@, st),
    ensures
        match r {
            Ok(()) => staged(final(ops)@, final(updates)@, final(changed)@, writer.root@, st.push(Step::Write(p.name@, p.value@, p.version))),
            Err(e) => {
                &&& !valid_name(p.name@)
                &&& error_for(e, p.name@)
                &&& final(ops)@ == old(ops)@
            },
        },
{
    let path = match writer.path_for(p.name.as_str()) {
        Ok(path) => path,
        Err(e) => {
            return Err(e);
        },
    };
    let ghost s = Step::Write(p.name@, p.value@, p.version);
    ops.push(FileOp::Write { name: copy_string(&p.name), path, value: copy_string(&p.value) });
    let u = (copy_string(&p.name), Some(StateEntry::new(hash, p.version)));
    let ghost uv = u;
    updates.push(u);
    changed.push(copy_string(&p.name));
    proof {
        lemma_staged_lengths(old(ops)@, old(updates)@, old(changed)@, writer.root@, st);
        let st2 = st.push(s);
        assert forall|j: int| 0 <= j < st2.len() implies #[trigger] updates_view(updates@)[j] == st2.map_values(|s: Step| step_update(s))[j] by {
            if j < st.len() {
                assert(updates@[j] == old(updates)@[j]);
                assert(updates_view(old(updates)@)[j] == st.map_values(|s: Step| step_update(s))[j]);
            }
        }
        assert forall|j: int| 0 <= j < st2.len() implies #[trigger] strings_view(changed@)[j] == st2.map_values(|s: Step| step_name(s))[j] by {
            if j < st.len() {
                assert(changed@[j] == old(changed)@[j]);
                assert(strings_view(old(changed)@)[j] == st.map_values(|s: Step| step_name(s))[j]);
            }
        }
        assert(updates_view(updates@) =~= st2.map_values(|s: Step| step_update(s)));
        assert(strings_view(changed@) =~= st2.map_values(|s: Step| step_name(s)));
        assert forall|j: int| 0 <= j < st2.len() implies valid_name(step_name(#[trigger] st2[j])) && op_for(ops@[j], writer.root@, st2[j]) by {
            if j < st.len() {
                assert(st2[j] == st[j]);
            }
        }
    }
    Ok(())
}

/// Stages the removal of `name`.
fn stage_remove(
    writer: &FileWriter,
    name: &String,
    ops: &mut Vec<FileOp>,
    updates: &mut Vec<(String, Option<StateEntry>)>,
    changed: &mut Vec<String>,
    Ghost(st): Ghost<Seq<Step>>,
) -> (r: Result<(), PathError>)
    requires
        staged(old(ops)@, old(updates)@, old(changed)@, writer.root@, st),
    ensures
        match r {
            Ok(()) => staged(final(ops)@, final(updates)@, final(changed)@, writer.root@, st.push(Step::Remove(name@))),
            Err(e) => {
                &&& !valid_name(name@)
                &&& error_for(e, name@)
                &&& final(ops)@ == old(ops)@
            },
        },
{
    let path = match writer.path_for(name.as_str()) {
        Ok(path) => path,
        Err(e) => {
            return Err(e);
        },
    };
    let ghost s = Step::Remove(name@);
    ops.push(FileOp::Remove { name: copy_string(name), path });
    updates.push((copy_string(name), None));
    changed.push(copy_string(name));
    proof {
        lemma_staged_lengths(old(ops)@, old(updates)@, old(changed)@, writer.root@, st);
        let st2 = st.push(s);
        assert forall|j: int| 0 <= j < st2.len() implies #[trigger] updates_view(updates@)[j] == st2.map_values(|s: Step| step_update(s))[j] by {
            if j < st.len() {
                assert(updates@[j] == old(updates)@[j]);
                assert(updates_view(old(updates)@)[j] == st.map_values(|s: Step| step_update(s))[j]);
            }
        }
        assert forall|j: int| 0 <= j < st2.len() implies #[trigger] strings_view(changed@)[j] == st2.map_values(|s: Step| step_name(s))[j] by {
            if j < st.len() {
                assert(changed@[j] == old(changed)@[j]);
                assert(strings_view(old(changed)@)[j] == st.map_values(|s: Step| step_name(s))[j]);
            }
        }
        assert(updates_view(updates@) =~= st2.map_values(|s: Step| step_update(s)));
        assert(strings_view(changed@) =~= st2.map_values(|s: Step| step_name(s)));
        assert forall|j: int| 0 <= j < st2.len() implies valid_name(step_name(#[trigger] st2[j])) && op_for(ops@[j], writer.root@, st2[j]) by {
            if j < st.len() {
                assert(st2[j] == st[j]);
            }
        }
    }
    Ok(())
}

/// The names to fetch for a batch of change events: the created or updated
/// ones, in event order.
pub fn fetch_names(events: &Vec<ChangeEvent>) -> (r: Vec<String>)
    ensures
        strings_view(r@) == fetch_list(events@),
{
    let mut r: Vec<String> = Vec::new();
    let mut i: usize = 0;
    while i < events.len()
        invariant
            i <= events@.len(),
            strings_view(r@) == fetch_list(events@.take(i as int)),
        decreases events.len() - i,
    {
        proof {
            assert(events@.take(i + 1).drop_last() =~= events@.take(i as int));
            assert(events@.take(i + 1).last() == events@[i as int]);
        }
        if events[i].operation != Operation::Deleted {
            let ghost before = r@;
            r.push(copy_string(&events[i].name));
            assert(strings_view(r@) =~= strings_view(before).push(events@[i as int].name@));
        }
        i = i + 1;
    }
    assert(events@.take(events@.len() as int) =~= events@);
    r
}

/// The names a batch of change events removes (when recorded): those
/// reported deleted, then the requested names that `ps` lacks.
fn delete_names(events: &Vec<ChangeEvent>, ps: &Vec<Parameter>) -> (r: Vec<String>)
    ensures
        strings_view(r@) == delete_candidates(events@, ps@),
{
    let mut r: Vec<String> = Vec::new();
    let mut i: usize = 0;
    while i < events.len()
        invariant
            i <= events@.len(),
            strings_view(r@) == deleted_list(events@.take(i as int)),
        decreases events.len() - i,
    {
        proof {
            assert(events@.take(i + 1).drop_last() =~= events@.take(i as int));
            assert(events@.take(i + 1).last() == events@[i as int]);
        }
        if events[i].operation == Operation::Deleted {
            let ghost before = r@;
            r.push(copy_string(&events[i].name));
            assert(strings_view(r@) =~= strings_view(before).push(events@[i as int].name@));
        }
        i = i + 1;
    }
    assert(events@.take(events@.len() as int) =~= events@);
    let ghost head = r@;
    let wanted = fetch_names(events);
    let ghost fl = fetch_list(events@);
    let mut j: usize = 0;
    while j < wanted.len()
        invariant
            j <= wanted@.len(),
            strings_view(wanted@) == fl,
            strings_view(head) == deleted_list(events@),
            strings_view(r@) == deleted_list(events@) + missing_names(fl.take(j as int), ps@),
        decreases wanted.len() - j,
    {
        proof {
            assert(strings_view(wanted@).len() == wanted@.len());
            assert(fl.take(j + 1).drop_last() =~= fl.take(j as int));
            assert(fl.take(j + 1).last() == wanted@[j as int]@);
        }
        if !params_contain(ps, wanted[j].as_str()) {
            let ghost before = r@;
            r.push(copy_string(&wanted[j]));
            assert(strings_view(r@) =~= strings_view(before).push(wanted@[j as int]@));
            assert(deleted_list(events@) + missing_names(fl.take(j + 1), ps@) =~= (deleted_list(events@) + missing_names(fl.take(j as int), ps@)).push(wanted@[j as int]@));
        } else {
            assert(missing_names(fl.take(j + 1), ps@) == missing_names(fl.take(j as int), ps@));
        }
        j = j + 1;
    }
    proof {
        assert(strings_view(wanted@).len() == wanted@.len());
        assert(fl.take(fl.len() as int) =~= fl);
    }
    r
}

/// Whatever is told which parameter names changed (the on-change trigger).
pub trait Notifier: Send + Sync {
    fn notify(&self, names: Vec<String>);
}

/// The engine's state: what was recorded, where files go, and the
/// parameter prefix that is mirrored.
pub struct Engine {
    pub state: StateStore,
    pub writer: FileWriter,
    pub prefix: String,
}

impl Engine {
    /// The engine's invariant.
    pub open spec fn wf(&self) -> bool {
        self.state.wf()
    }

    /// An engine over the given state and writer.
    pub fn new(state: StateStore, writer: FileWriter, prefix: String) -> (e: Self)
        requires
            state.wf(),
        ensures
            e.wf(),
            e.state@ == state@,
            e.state.names() == state.names(),
            e.state.location() == state.location(),
            e.state == state,
            e.writer == writer,
            e.writer.root@ == writer.root@,
            e.writer.dir_mode == writer.dir_mode,
            e.writer.file_mode == writer.file_mode,
            e.prefix == prefix,
            e.prefix@ == prefix@,
    {
        Engine { state, writer, prefix }
    }

    /// Stages a write for every parameter whose value hash differs from the recorded one.
    fn stage_writes(
        &self,
        ps: &Vec<Parameter>,
        ops: &mut Vec<FileOp>,
        updates: &mut Vec<(String, Option<StateEntry>)>,
        changed: &mut Vec<String>,
    ) -> (r: Result<(), PathError>)
        requires
            self.wf(),
            old(ops)@.len() == 0,
            old(updates)@.len() == 0,
            old(changed)@.len() == 0,
        ensures
            match r {
                Ok(()) => staged(final(ops)@, final(updates)@, final(changed)@, self.writer.root@, write_steps(self.state@, ps@)),
                Err(e) => {
                    let steps = write_steps(self.state@, ps@);
                    &&& final(ops)@.len() < steps.len()
                    &&& forall|j: int| 0 <= j < final(ops)@.len() ==> valid_name(step_name(#[trigger] steps[j])) && op_for(final(ops)@[j], self.writer.root@, steps[j])
                    &&& !valid_name(step_name(steps[final(ops)@.len() as int]))
                    &&& error_for(e, step_name(steps[final(ops)@.len() as int]))
                },
            },
    {
        proof {
            assert(updates_view(updates@) =~= Seq::<Step>::empty().map_values(|s: Step| step_update(s)));
            assert(strings_view(changed@) =~= Seq::<Step>::empty().map_values(|s: Step| step_name(s)));
        }
        let mut i: usize = 0;
        while i < ps.len()
            invariant
                self.wf(),
                i <= ps@.len(),
                staged(ops@, updates@, changed@, self.writer.root@, write_steps(self.state@, ps@.take(i as int))),
            decreases ps.len() - i,
        {
            let ghost st = write_steps(self.state@, ps@.take(i as int));
            let p = &ps[i];
            proof {
                assert(ps@.take(i + 1).drop_last() =~= ps@.take(i as int));
                assert(ps@.take(i + 1).last() == ps@[i as int]);
            }
            let hash = hash_value(p.value.as_str());
            let same = self.state.holds_hash(p.name.as_str(), hash.as_str());
            assert(same == unchanged(self.state@, *p));
            if !same {
                match stage_write(&self.writer, p, hash, ops, updates, changed, Ghost(st)) {
                    Ok(()) => {},
                    Err(e) => {
                        proof {
                            lemma_write_steps_prefix(self.state@, ps@, i + 1);
                            let full = write_steps(self.state@, ps@);
                            let st2 = write_steps(self.state@, ps@.take(i + 1));
                            assert(st2 == st.push(Step::Write(p.name@, p.value@, p.version)));
                            assert(full[st.len() as int] == st2[st.len() as int]);
                            assert forall|j: int| 0 <= j < ops@.len() implies valid_name(step_name(#[trigger] full[j])) && op_for(ops@[j], self.writer.root@, full[j]) by {
                                assert(full[j] == st2[j]);
                                assert(st2[j] == st[j]);
                            }
                        }
                        return Err(e);
                    },
                }
            }
            i = i + 1;
        }
        proof {
            assert(ps@.take(ps@.len() as int) =~= ps@);
        }
        Ok(())
    }

    /// Plans a full sync against `ps`, everything the source holds under the
    /// prefix: write every parameter whose value changed, then remove every
    /// recorded name that no parameter has any more.
    pub fn plan_full_sync(&self, ps: &Vec<Parameter>) -> (plan: SyncPlan)
        requires
            self.wf(),
        ensures
            plan_follows(plan, self.writer.root@, full_sync_steps(self.state@, self.state.names(), ps@)),
    {
        let mut ops: Vec<FileOp> = Vec::new();
        let mut updates: Vec<(String, Option<StateEntry>)> = Vec::new();
        let mut changed: Vec<String> = Vec::new();
        let ghost steps = full_sync_steps(self.state@, self.state.names(), ps@);
        let ghost w = write_steps(self.state@, ps@);
        match self.stage_writes(ps, &mut ops, &mut updates, &mut changed) {
            Ok(()) => {},
            Err(e) => {
                proof {
                    assert forall|j: int| 0 <= j < ops@.len() implies #[trigger] steps[j] == w[j] by {}
                    assert(steps[ops@.len() as int] == w[ops@.len() as int]);
                }
                return SyncPlan { ops, outcome: Err(e) };
            },
        }
        let known = self.state.known_names();
        let ghost names = self.state.names();
        let mut k: usize = 0;
        while k < known.len()
            invariant
                self.wf(),
                names == self.state.names(),
                known@.len() == names.len(),
                forall|j: int| 0 <= j < known@.len() ==> #[trigger] known@[j]@ == names[j],
                k <= known@.len(),
                w == write_steps(self.state@, ps@),
                steps == w + prune_steps(names, ps@),
                staged(ops@, updates@, changed@, self.writer.root@, w + prune_steps(names.take(k as int), ps@)),
            decreases known.len() - k,
        {
            let ghost st = w + prune_steps(names.take(k as int), ps@);
            proof {
                assert(names.take(k + 1).drop_last() =~= names.take(k as int));
                assert(names.take(k + 1).last() == known@[k as int]@);
            }
            if !params_contain(ps, known[k].as_str()) {
                match stage_remove(&self.writer, &known[k], &mut ops, &mut updates, &mut changed, Ghost(st)) {
                    Ok(()) => {
                        proof {
                            assert(w + prune_steps(names.take(k + 1), ps@) =~= st.push(Step::Remove(known@[k as int]@)));
                        }
                    },
                    Err(e) => {
                        proof {
                            lemma_prune_steps_prefix(names, ps@, k + 1);
                            lemma_prefix_concat(w, prune_steps(names.take(k + 1), ps@), prune_steps(names, ps@));
                            let st2 = w + prune_steps(names.take(k + 1), ps@);
                            assert(st2 =~= st.push(Step::Remove(known@[k as int]@)));
                            assert(steps[st.len() as int] == st2[st.len() as int]);
                            assert forall|j: int| 0 <= j < ops@.len() implies valid_name(step_name(#[trigger] steps[j])) && op_for(ops@[j], self.writer.root@, steps[j]) by {
                                assert(steps[j] == st2[j]);
                                assert(st2[j] == st[j]);
                            }
                        }
                        return SyncPlan { ops, outcome: Err(e) };
                    },
                }
            } else {
                proof {
                    assert(w + prune_steps(names.take(k + 1), ps@) =~= st);
                }
            }
            k = k + 1;
        }
        proof {
            assert(names.take(names.len() as int) =~= names);
        }
        SyncPlan { ops, outcome: Ok(SyncCommit { updates, changed }) }
    }

    /// Plans applying a batch of change events, given `ps`, what the source
    /// returned for the created/updated names (`fetch_names`). Writes every
    /// returned parameter whose value changed; then removes, if recorded, each
    /// name reported deleted and each requested name that was not returned
    /// (it was deleted in the meantime).
    pub fn plan_change_events(&self, events: &Vec<ChangeEvent>, ps: &Vec<Parameter>) -> (plan: SyncPlan)
        requires
            self.wf(),
        ensures
            plan_follows(plan, self.writer.root@, event_steps(self.state@, events@, ps@)),
    {
        let mut ops: Vec<FileOp> = Vec::new();
        let mut updates: Vec<(String, Option<StateEntry>)> = Vec::new();
        let mut changed: Vec<String> = Vec::new();
        let ghost steps = event_steps(self.state@, events@, ps@);
        let ghost w = write_steps(self.state@, ps@);
        match self.stage_writes(ps, &mut ops, &mut updates, &mut changed) {
            Ok(()) => {},
            Err(e) => {
                proof {
                    assert forall|j: int| 0 <= j < ops@.len() implies #[trigger] steps[j] == w[j] by {}
                    assert(steps[ops@.len() as int] == w[ops@.len() as int]);
                }
                return SyncPlan { ops, outcome: Err(e) };
            },
        }
        let candidates = delete_names(events, ps);
        let ghost names = delete_candidates(events@, ps@);
        let mut k: usize = 0;
        while k < candidates.len()
            invariant
                self.wf(),
                strings_view(candidates@) == names,
                names == delete_candidates(events@, ps@),
                k <= candidates@.len(),
                w == write_steps(self.state@, ps@),
                steps == w + delete_steps(self.state@, names),
                staged(ops@, updates@, changed@, self.writer.root@, w + delete_steps(self.state@, names.take(k as int))),
            decreases candidates.len() - k,
        {
            let ghost st = w + delete_steps(self.state@, names.take(k as int));
            proof {
                assert(names.take(k + 1).drop_last() =~= names.take(k as int));
                assert(names.take(k + 1).last() == candidates@[k as int]@);
            }
            if self.state.get(candidates[k].as_str()).is_some() {
                match stage_remove(&self.writer, &candidates[k], &mut ops, &mut updates, &mut changed, Ghost(st)) {
                    Ok(()) => {
                        proof {
                            assert(w + delete_steps(self.state@, names.take(k + 1)) =~= st.push(Step::Remove(candidates@[k as int]@)));
                        }
                    },
                    Err(e) => {
                        proof {
                            lemma_delete_steps_prefix(self.state@, names, k + 1);
                            lemma_prefix_concat(w, delete_steps(self.state@, names.take(k + 1)), delete_steps(self.state@, names));
                            let st2 = w + delete_steps(self.state@, names.take(k + 1));
                            assert(st2 =~= st.push(Step::Remove(candidates@[k as int]@)));
                            assert(steps[st.len() as int] == st2[st.len() as int]);
                            assert forall|j: int| 0 <= j < ops@.len() implies valid_name(step_name(#[trigger] steps[j])) && op_for(ops@[j], self.writer.root@, steps[j]) by {
                                assert(steps[j] == st2[j]);
                                assert(st2[j] == st[j]);
                            }
                        }
                        return SyncPlan { ops, outcome: Err(e) };
                    },
                }
            } else {
                proof {
                    assert(w + delete_steps(self.state@, names.take(k + 1)) =~= st);
                }
            }
            k = k + 1;
        }
        proof {
            assert(strings_view(candidates@).len() == candidates@.len());
            assert(names.take(names.len() as int) =~= names);
        }
        SyncPlan { ops, outcome: Ok(SyncCommit { updates, changed }) }
    }

    /// Records the updates of a sync whose file operations all succeeded.
    pub fn commit(&mut self, updates: Vec<(String, Option<StateEntry>)>)
        requires
            old(self).wf(),
        ensures
            final(self).wf(),
            final(self).state@ == apply_updates(old(self).state@, updates_view(updates@)),
            final(self).state.location() == old(self).state.location(),
            final(self).writer == old(self).writer,
            final(self).prefix == old(self).prefix,
    {
        self.state.apply(updates);
    }

    /// Settles a sync whose file operations all succeeded: records its
    /// updates, and says whether the state must be persisted (only when
    /// there are updates) and whether to notify (only when some name
    /// changed), along with the changed names.
    pub fn settle(&mut self, commit: SyncCommit) -> (r: Settled)
        requires
            old(self).wf(),
        ensures
            final(self).wf(),
            final(self).state@ == apply_updates(old(self).state@, updates_view(commit.updates@)),
            commit.updates@.len() == 0 ==> final(self).state@ == old(self).state@,
            final(self).state.location() == old(self).state.location(),
            final(self).writer == old(self).writer,
            final(self).prefix == old(self).prefix,
            r.persist == (commit.updates@.len() > 0),
            r.changed@ == commit.changed@,
            r.notify == (commit.changed@.len() > 0),
    {
        let SyncCommit { updates, changed } = commit;
        let persist = updates.len() > 0;
        if persist {
            self.commit(updates);
        }
        let notify = changed.len() > 0;
        Settled { persist, changed, notify }
    }
}

/// Two maps agree at `k`.
pub open spec fn same_at<K, V>(m1: Map<K, V>, m2: Map<K, V>, k: K) -> bool {
    &&& m1.contains_key(k) == m2.contains_key(k)
    &&& m1.contains_key(k) ==> m1[k] == m2[k]
}

/// No two parameters share a name.
pub open spec fn distinct_names(ps: Seq<Parameter>) -> bool {
    forall|i: int, j: int| 0 <= i < j < ps.len() ==> (#[trigger] ps[i]).name@ != (#[trigger] ps[j]).name@
}

/// `ks` is exactly the set of keys of `m`.
pub open spec fn lists_keys(m: Map<Seq<char>, (Seq<char>, i64)>, ks: Seq<Seq<char>>) -> bool {
    forall|k: Seq<char>| m.contains_key(k) <==> ks.contains(k)
}

/// The state after a sequence of steps is recorded.
pub open spec fn after_steps(m: Map<Seq<char>, (Seq<char>, i64)>, st: Seq<Step>) -> Map<Seq<char>, (Seq<char>, i64)> {
    apply_updates(m, st.map_values(|s: Step| step_update(s)))
}

proof fn lemma_apply_concat(
    m: Map<Seq<char>, (Seq<char>, i64)>,
    a: Seq<(Seq<char>, Option<(Seq<char>, i64)>)>,
    b: Seq<(Seq<char>, Option<(Seq<char>, i64)>)>,
)
    ensures
        apply_updates(m, a + b) == apply_updates(apply_updates(m, a), b),
    decreases b.len(),
{
    if b.len() == 0 {
        assert(a + b =~= a);
    } else {
        assert((a + b).drop_last() =~= a + b.drop_last());
        assert((a + b).last() == b.last());
        lemma_apply_concat(m, a, b.drop_last());
    }
}

proof fn lemma_after_push(m: Map<Seq<char>, (Seq<char>, i64)>, st: Seq<Step>, s: Step)
    ensures
        after_steps(m, st.push(s)) == match step_update(s).1 {
            Some(e) => after_steps(m, st).insert(step_name(s), e),
            None => after_steps(m, st).remove(step_name(s)),
        },
{
    let us = st.push(s).map_values(|s: Step| step_update(s));
    assert(us.drop_last() =~= st.map_values(|s: Step| step_update(s)));
    assert(us.last() == step_update(s));
}

proof fn lemma_after_concat(m: Map<Seq<char>, (Seq<char>, i64)>, a: Seq<Step>, b: Seq<Step>)
    ensures
        after_steps(m, a + b) == after_steps(after_steps(m, a), b),
{
    assert((a + b).map_values(|s: Step| step_update(s)) =~= a.map_values(|s: Step| step_update(s)) + b.map_values(|s: Step| step_update(s)));
    lemma_apply_concat(m, a.map_values(|s: Step| step_update(s)), b.map_values(|s: Step| step_update(s)));
}

/// Recording the writes: every parameter's name ends up with its value's
/// hash, and every other name is untouched.
proof fn lemma_after_writes(state: Map<Seq<char>, (Seq<char>, i64)>, ps: Seq<Parameter>)
    requires
        distinct_names(ps),
    ensures
        forall|k: Seq<char>| !param_names(ps).contains(k) ==> #[trigger] same_at(after_steps(state, write_steps(state, ps)), state, k),
        forall|i: int| 0 <= i < ps.len() ==> {
            let a = after_steps(state, write_steps(state, ps));
            a.contains_key((#[trigger] ps[i]).name@) && a[ps[i].name@].0 == value_hash(ps[i].value@)
        },
    decreases ps.len(),
{
    if ps.len() == 0 {
        assert(after_steps(state, Seq::empty()) =~= state) by {
            assert(Seq::<Step>::empty().map_values(|s: Step| step_update(s)) =~= Seq::empty());
        }
    } else {
        let pre = ps.drop_last();
        let p = ps.last();
        assert(distinct_names(pre)) by {
            assert forall|i: int, j: int| 0 <= i < j < pre.len() implies (#[trigger] pre[i]).name@ != (#[trigger] pre[j]).name@ by {
                assert(pre[i] == ps[i]);
                assert(pre[j] == ps[j]);
            }
        }
        lemma_after_writes(state, pre);
        let a0 = after_steps(state, write_steps(state, pre));
        let a = after_steps(state, write_steps(state, ps));
        assert(!param_names(pre).contains(p.name@)) by {
            if param_names(pre).contains(p.name@) {
                let i = choose|i: int| 0 <= i < param_names(pre).len() && param_names(pre)[i] == p.name@;
                assert(ps[i].name@ == ps[ps.len() - 1].name@);
            }
        }
        if !unchanged(state, p) {
            lemma_after_push(state, write_steps(state, pre), Step::Write(p.name@, p.value@, p.version));
            assert(a == a0.insert(p.name@, (value_hash(p.value@), p.version)));
        } else {
            assert(write_steps(state, ps) == write_steps(state, pre));
            assert(a == a0);
        }
        assert(param_names(ps) =~= param_names(pre).push(p.name@));
        assert(param_names(ps).contains(p.name@)) by {
            assert(param_names(ps)[ps.len() - 1] == p.name@);
        }
        assert(same_at(a0, state, p.name@));
        assert forall|k: Seq<char>| !param_names(ps).contains(k) implies #[trigger] same_at(a, state, k) by {
            if param_names(pre).contains(k) {
                let i = choose|i: int| 0 <= i < param_names(pre).len() && param_names(pre)[i] == k;
                assert(param_names(ps)[i] == k);
            }
            assert(k != p.name@);
            assert(same_at(a0, state, k));
        }
        assert forall|i: int| 0 <= i < ps.len() implies a.contains_key((#[trigger] ps[i]).name@) && a[ps[i].name@].0 == value_hash(ps[i].value@) by {
            if i < ps.len() - 1 {
                assert(pre[i] == ps[i]);
                assert(ps[i].name@ != p.name@);
            }
        }
    }
}

/// Recording the removals of a full sync: a known name that no parameter has
/// is gone; every other name is untouched.
proof fn lemma_after_prune(a: Map<Seq<char>, (Seq<char>, i64)>, known: Seq<Seq<char>>, ps: Seq<Parameter>)
    ensures
        forall|k: Seq<char>| known.contains(k) && !param_names(ps).contains(k) ==> !after_steps(a, prune_steps(known, ps)).contains_key(k),
        forall|k: Seq<char>| !(known.contains(k) && !param_names(ps).contains(k)) ==> #[trigger] same_at(after_steps(a, prune_steps(known, ps)), a, k),
    decreases known.len(),
{
    if known.len() == 0 {
        assert(after_steps(a, Seq::empty()) =~= a) by {
            assert(Seq::<Step>::empty().map_values(|s: Step| step_update(s)) =~= Seq::empty());
        }
    } else {
        let pre = known.drop_last();
        let k0 = known.last();
        lemma_after_prune(a, pre, ps);
        let b0 = after_steps(a, prune_steps(pre, ps));
        let b = after_steps(a, prune_steps(known, ps));
        if !param_names(ps).contains(k0) {
            lemma_after_push(a, prune_steps(pre, ps), Step::Remove(k0));
            assert(b == b0.remove(k0));
        } else {
            assert(b == b0);
        }
        assert forall|k: Seq<char>| known.contains(k) implies pre.contains(k) || k == k0 by {
            let i = choose|i: int| 0 <= i < known.len() && known[i] == k;
            if i < known.len() - 1 {
                assert(pre[i] == k);
            }
        }
        assert forall|k: Seq<char>| pre.contains(k) implies known.contains(k) by {
            let i = choose|i: int| 0 <= i < pre.len() && pre[i] == k;
            assert(known[i] == k);
        }
        assert(known.contains(k0)) by {
            assert(known[known.len() - 1] == k0);
        }
        assert forall|k: Seq<char>| known.contains(k) && !param_names(ps).contains(k) implies !#[trigger] b.contains_key(k) by {
            if k != k0 {
                assert(pre.contains(k));
                assert(!b0.contains_key(k));
            }
        }
        assert forall|k: Seq<char>| !(known.contains(k) && !param_names(ps).contains(k)) implies #[trigger] same_at(b, a, k) by {
            assert(!(pre.contains(k) && !param_names(ps).contains(k)));
            assert(same_at(b0, a, k));
        }
    }
}

/// Recording the removals of an event batch: a listed name that was recorded
/// is gone; every other name is untouched.
proof fn lemma_after_deletes(
    state: Map<Seq<char>, (Seq<char>, i64)>,
    a: Map<Seq<char>, (Seq<char>, i64)>,
    names: Seq<Seq<char>>,
)
    ensures
        forall|k: Seq<char>| names.contains(k) && state.contains_key(k) ==> !after_steps(a, delete_steps(state, names)).contains_key(k),
        forall|k: Seq<char>| !(names.contains(k) && state.contains_key(k)) ==> #[trigger] same_at(after_steps(a, delete_steps(state, names)), a, k),
    decreases names.len(),
{
    if names.len() == 0 {
        assert(after_steps(a, Seq::empty()) =~= a) by {
            assert(Seq::<Step>::empty().map_values(|s: Step| step_update(s)) =~= Seq::empty());
        }
    } else {
        let pre = names.drop_last();
        let k0 = names.last();
        lemma_after_deletes(state, a, pre);
        let b0 = after_steps(a, delete_steps(state, pre));
        let b = after_steps(a, delete_steps(state, names));
        if state.contains_key(k0) {
            lemma_after_push(a, delete_steps(state, pre), Step::Remove(k0));
            assert(b == b0.remove(k0));
        } else {
            assert(b == b0);
        }
        assert forall|k: Seq<char>| names.contains(k) implies pre.contains(k) || k == k0 by {
            let i = choose|i: int| 0 <= i < names.len() && names[i] == k;
            if i < names.len() - 1 {
                assert(pre[i] == k);
            }
        }
        assert forall|k: Seq<char>| pre.contains(k) implies names.contains(k) by {
            let i = choose|i: int| 0 <= i < pre.len() && pre[i] == k;
            assert(names[i] == k);
        }
        assert(names.contains(k0)) by {
            assert(names[names.len() - 1] == k0);
        }
        assert forall|k: Seq<char>| names.contains(k) && state.contains_key(k) implies !#[trigger] b.contains_key(k) by {
            if k != k0 {
                assert(pre.contains(k));
                assert(!b0.contains_key(k));
            }
        }
        assert forall|k: Seq<char>| !(names.contains(k) && state.contains_key(k)) implies #[trigger] same_at(b, a, k) by {
            assert(!(pre.contains(k) && state.contains_key(k)));
            assert(same_at(b0, a, k));
        }
    }
}

proof fn lemma_no_writes(m: Map<Seq<char>, (Seq<char>, i64)>, ps: Seq<Parameter>)
    requires
        forall|i: int| 0 <= i < ps.len() ==> unchanged(m, #[trigger] ps[i]),
    ensures
        write_steps(m, ps).len() == 0,
    decreases ps.len(),
{
    if ps.len() > 0 {
        let pre = ps.drop_last();
        assert forall|i: int| 0 <= i < pre.len() implies unchanged(m, #[trigger] pre[i]) by {
            assert(pre[i] == ps[i]);
        }
        lemma_no_writes(m, pre);
        assert(unchanged(m, ps[ps.len() - 1]));
    }
}

proof fn lemma_no_prunes(known: Seq<Seq<char>>, ps: Seq<Parameter>)
    requires
        forall|j: int| 0 <= j < known.len() ==> param_names(ps).contains(#[trigger] known[j]),
    ensures
        prune_steps(known, ps).len() == 0,
    decreases known.len(),
{
    if known.len() > 0 {
        let pre = known.drop_last();
        assert forall|j: int| 0 <= j < pre.len() implies param_names(ps).contains(#[trigger] pre[j]) by {
            assert(pre[j] == known[j]);
        }
        lemma_no_prunes(pre, ps);
        assert(param_names(ps).contains(known[known.len() - 1]));
    }
}

/// A full sync mirrors the source exactly. Once the steps of a full sync
/// over parameters with distinct names are recorded, the record holds exactly
/// those names, each with the hash of its value; and a second full sync over
/// the same parameters, from that record, has nothing to do (no file is
/// written or removed, no name is reported changed).
pub proof fn law_full_sync_converges(
    state: Map<Seq<char>, (Seq<char>, i64)>,
    known: Seq<Seq<char>>,
    ps: Seq<Parameter>,
    known_after: Seq<Seq<char>>,
)
    requires
        lists_keys(state, known),
        distinct_names(ps),
        lists_keys(after_steps(state, full_sync_steps(state, known, ps)), known_after),
    ensures
        forall|k: Seq<char>| #[trigger] after_steps(state, full_sync_steps(state, known, ps)).contains_key(k) <==> param_names(ps).contains(k),
        forall|i: int| 0 <= i < ps.len() ==> after_steps(state, full_sync_steps(state, known, ps))[(#[trigger] ps[i]).name@].0 == value_hash(ps[i].value@),
        full_sync_steps(after_steps(state, full_sync_steps(state, known, ps)), known_after, ps).len() == 0,
{
    let w = write_steps(state, ps);
    let a = after_steps(state, w);
    let b = after_steps(state, full_sync_steps(state, known, ps));
    lemma_after_writes(state, ps);
    lemma_after_prune(a, known, ps);
    lemma_after_concat(state, w, prune_steps(known, ps));
    assert(b == after_steps(a, prune_steps(known, ps)));
    assert forall|k: Seq<char>| #[trigger] b.contains_key(k) <==> param_names(ps).contains(k) by {
        if param_names(ps).contains(k) {
            let i = choose|i: int| 0 <= i < param_names(ps).len() && param_names(ps)[i] == k;
            assert(ps[i].name@ == k);
            assert(a.contains_key(ps[i].name@));
            assert(same_at(b, a, k));
        } else if known.contains(k) {
            assert(!b.contains_key(k));
        } else {
            assert(!state.contains_key(k));
            assert(same_at(a, state, k));
            assert(same_at(b, a, k));
        }
    }
    assert forall|i: int| 0 <= i < ps.len() implies b[(#[trigger] ps[i]).name@].0 == value_hash(ps[i].value@) by {
        assert(param_names(ps)[i] == ps[i].name@);
        assert(param_names(ps).contains(ps[i].name@));
        assert(same_at(b, a, ps[i].name@));
    }
    assert forall|i: int| 0 <= i < ps.len() implies unchanged(b, #[trigger] ps[i]) by {
        assert(param_names(ps)[i] == ps[i].name@);
        assert(param_names(ps).contains(ps[i].name@));
        assert(same_at(b, a, ps[i].name@));
    }
    lemma_no_writes(b, ps);
    assert forall|j: int| 0 <= j < known_after.len() implies param_names(ps).contains(#[trigger] known_after[j]) by {
        assert(known_after.contains(known_after[j]));
        assert(b.contains_key(known_after[j]));
    }
    lemma_no_prunes(known_after, ps);
}

/// An event batch mirrors what it reports. Once the steps of a batch are
/// recorded, with `ps` (distinct names) fetched for its created/updated
/// names: every fetched parameter that the batch does not also report
/// deleted is recorded with the hash of its value; every name the batch
/// reports deleted, or that was requested and not returned, is no longer
/// recorded; every other name is untouched.
pub proof fn law_events_mirror(
    state: Map<Seq<char>, (Seq<char>, i64)>,
    events: Seq<ChangeEvent>,
    ps: Seq<Parameter>,
)
    requires
        distinct_names(ps),
    ensures
        forall|i: int| 0 <= i < ps.len() && !deleted_list(events).contains((#[trigger] ps[i]).name@) ==> {
            let b = after_steps(state, event_steps(state, events, ps));
            b.contains_key(ps[i].name@) && b[ps[i].name@].0 == value_hash(ps[i].value@)
        },
        forall|k: Seq<char>| #[trigger] delete_candidates(events, ps).contains(k) && !param_names(ps).contains(k)
            ==> !after_steps(state, event_steps(state, events, ps)).contains_key(k),
        forall|k: Seq<char>| !delete_candidates(events, ps).contains(k) && !param_names(ps).contains(k)
            ==> #[trigger] same_at(after_steps(state, event_steps(state, events, ps)), state, k),
{
    let w = write_steps(state, ps);
    let a = after_steps(state, w);
    let names = delete_candidates(events, ps);
    let b = after_steps(state, event_steps(state, events, ps));
    lemma_after_writes(state, ps);
    lemma_after_deletes(state, a, names);
    lemma_after_concat(state, w, delete_steps(state, names));
    lemma_missing_names(fetch_list(events), ps);
    assert forall|i: int| 0 <= i < ps.len() && !deleted_list(events).contains((#[trigger] ps[i]).name@) implies b.contains_key(ps[i].name@) && b[ps[i].name@].0 == value_hash(ps[i].value@) by {
        assert(param_names(ps)[i] == ps[i].name@);
        assert(!names.contains(ps[i].name@)) by {
            if names.contains(ps[i].name@) {
                let j = choose|j: int| 0 <= j < names.len() && names[j] == ps[i].name@;
                let dl = deleted_list(events);
                if j < dl.len() {
                    assert(dl[j] == ps[i].name@);
                } else {
                    let mn = missing_names(fetch_list(events), ps);
                    assert(mn[j - dl.len()] == ps[i].name@);
                    assert(mn.contains(ps[i].name@));
                }
            }
        }
        assert(same_at(b, a, ps[i].name@));
    }
    assert forall|k: Seq<char>| #[trigger] names.contains(k) && !param_names(ps).contains(k) implies !b.contains_key(k) by {
        if !state.contains_key(k) {
            assert(same_at(a, state, k));
            assert(!a.contains_key(k));
            assert(same_at(b, a, k));
        }
    }
    assert forall|k: Seq<char>| !delete_candidates(events, ps).contains(k) && !param_names(ps).contains(k)
        implies #[trigger] same_at(b, state, k) by {
        assert(same_at(a, state, k));
        assert(same_at(b, a, k));
    }
}

proof fn lemma_missing_names(wanted: Seq<Seq<char>>, ps: Seq<Parameter>)
    ensures
        forall|k: Seq<char>| #[trigger] missing_names(wanted, ps).contains(k) ==> !param_names(ps).contains(k),
    decreases wanted.len(),
{
    if wanted.len() > 0 {
        lemma_missing_names(wanted.drop_last(), ps);
        let pre = missing_names(wanted.drop_last(), ps);
        let m = missing_names(wanted, ps);
        if param_names(ps).contains(wanted.last()) {
            assert(m == pre);
        } else {
            assert(m == pre.push(wanted.last()));
        }
        assert forall|k: Seq<char>| #[trigger] missing_names(wanted, ps).contains(k) implies !param_names(ps).contains(k) by {
            let i = choose|i: int| 0 <= i < m.len() && m[i] == k;
            if i < pre.len() {
                assert(pre[i] == k);
                assert(pre.contains(k));
            } else {
                assert(k == wanted.last());
            }
        }
    }
}

/// One parameter's write decision. A fetched parameter is written exactly
/// when no hash is recorded for its name or the recorded hash differs from
/// its value's hash; the write records the value's hash and the version,
/// never the value itself. Nothing else is recorded for it.
pub proof fn law_write_one(state: Map<Seq<char>, (Seq<char>, i64)>, p: Parameter)
    ensures
        unchanged(state, p) <==> (state.contains_key(p.name@) && state[p.name@].0 == value_hash(p.value@)),
        write_steps(state, seq![p]) == (if unchanged(state, p) {
            Seq::<Step>::empty()
        } else {
            seq![Step::Write(p.name@, p.value@, p.version)]
        }),
        after_steps(state, write_steps(state, seq![p])) == (if unchanged(state, p) {
            state
        } else {
            state.insert(p.name@, (value_hash(p.value@), p.version))
        }),
{
    let ps = seq![p];
    assert(ps.drop_last() =~= Seq::<Parameter>::empty());
    assert(ps.last() == p);
    assert(write_steps(state, Seq::<Parameter>::empty()) == Seq::<Step>::empty());
    assert(after_steps(state, Seq::empty()) =~= state) by {
        assert(Seq::<Step>::empty().map_values(|s: Step| step_update(s)) =~= Seq::empty());
    }
    if !unchanged(state, p) {
        assert(write_steps(state, ps) =~= seq![Step::Write(p.name@, p.value@, p.version)]);
        lemma_after_push(state, Seq::<Step>::empty(), Step::Write(p.name@, p.value@, p.version));
        assert(Seq::<Step>::empty().push(Step::Write(p.name@, p.value@, p.version)) =~= seq![Step::Write(p.name@, p.value@, p.version)]);
    }
}

proof fn lemma_write_steps_has(state: Map<Seq<char>, (Seq<char>, i64)>, ps: Seq<Parameter>, i: int)
    requires
        0 <= i < ps.len(),
        !unchanged(state, ps[i]),
    ensures
        write_steps(state, ps).contains(Step::Write(ps[i].name@, ps[i].value@, ps[i].version)),
    decreases ps.len(),
{
    let w = Step::Write(ps[i].name@, ps[i].value@, ps[i].version);
    let pre = ps.drop_last();
    if i == ps.len() - 1 {
        let ws = write_steps(state, ps);
        assert(ws == write_steps(state, pre).push(w));
        assert(ws[ws.len() - 1] == w);
    } else {
        assert(pre[i] == ps[i]);
        lemma_write_steps_has(state, pre, i);
        let r = write_steps(state, pre);
        let k = choose|k: int| 0 <= k < r.len() && r[k] == w;
        let ws = write_steps(state, ps);
        if !unchanged(state, ps.last()) {
            assert(ws == r.push(Step::Write(ps.last().name@, ps.last().value@, ps.last().version)));
            assert(ws[k] == w);
        } else {
            assert(ws == r);
        }
    }
}

/// An edited value is written, whatever the edit. When the record holds the
/// hash of some earlier value of a fetched parameter, and the new value's
/// whole UTF-8 encoding has a different SHA-256 digest from the earlier
/// one's (in particular, whenever SHA-256 does not collide on them), the full
/// sync writes the new value, records its hash, and reports the name as
/// changed.
pub proof fn law_changed_value_is_written(
    state: Map<Seq<char>, (Seq<char>, i64)>,
    known: Seq<Seq<char>>,
    ps: Seq<Parameter>,
    i: int,
    earlier: Seq<char>,
)
    requires
        0 <= i < ps.len(),
        state.contains_key(ps[i].name@),
        state[ps[i].name@].0 == value_hash(earlier),
        sha256(vstd::utf8::encode_utf8(earlier)) != sha256(vstd::utf8::encode_utf8(ps[i].value@)),
    ensures
        !unchanged(state, ps[i]),
        full_sync_steps(state, known, ps).contains(Step::Write(ps[i].name@, ps[i].value@, ps[i].version)),
        step_update(Step::Write(ps[i].name@, ps[i].value@, ps[i].version)) == (ps[i].name@, Some((value_hash(ps[i].value@), ps[i].version))),
        step_name(Step::Write(ps[i].name@, ps[i].value@, ps[i].version)) == ps[i].name@,
{
    law_hash_tells_values_apart(earlier, ps[i].value@);
    lemma_write_steps_has(state, ps, i);
    let w = Step::Write(ps[i].name@, ps[i].value@, ps[i].version);
    let ws = write_steps(state, ps);
    let k = choose|k: int| 0 <= k < ws.len() && ws[k] == w;
    assert(full_sync_steps(state, known, ps)[k] == w);
}

/// A lost state file costs one extra round, not data. From an empty record,
/// a full sync writes every parameter, in order, removes nothing, and so
/// reports every name as changed (firing the on-change command once).
pub proof fn law_empty_state_rewrites_everything(ps: Seq<Parameter>)
    ensures
        full_sync_steps(Map::empty(), Seq::empty(), ps) == ps.map_values(|p: Parameter| Step::Write(p.name@, p.value@, p.version)),
    decreases ps.len(),
{
    let w = |p: Parameter| Step::Write(p.name@, p.value@, p.version);
    if ps.len() == 0 {
        assert(full_sync_steps(Map::empty(), Seq::empty(), ps) =~= ps.map_values(w));
    } else {
        law_empty_state_rewrites_everything(ps.drop_last());
        assert(ps.map_values(w) =~= ps.drop_last().map_values(w).push(w(ps.last())));
        assert(write_steps(Map::empty(), ps.drop_last()) + prune_steps(Seq::empty(), ps.drop_last()) == write_steps(Map::empty(), ps.drop_last()));
        assert(full_sync_steps(Map::empty(), Seq::empty(), ps) =~= ps.map_values(w));
    }
}

} // verus!

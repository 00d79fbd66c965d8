//! The drain's rules: how a batch read from the queue is grouped by tenant,
//! and when it may be acknowledged.
//!
//! A batch is acknowledged only after every tenant's rows were inserted; on
//! any ClickHouse error it stays unacknowledged and is delivered again
//! (at-least-once).

use vstd::prelude::*;
use crate::text::{chars_eq, chars_of, contains_text, extend_str, push_text, string_of, texts};

verus! {

/// One queued event: its stream id, tenant and JSON text (empty when the
/// field was missing).
#[derive(Clone, Debug)]
pub struct StreamEntry {
    pub id: String,
    pub tenant: String,
    pub data: String,
}

/// Whether an entry carries rows to insert (a tenant and some data).
pub open spec fn kept(e: StreamEntry) -> bool {
    e.tenant@.len() > 0 && e.data@.len() > 0
}

/// The tenants of the kept entries, each once, in order of first appearance.
pub open spec fn batch_tenants(es: Seq<StreamEntry>) -> Seq<Seq<char>>
    decreases es.len(),
{
    if es.len() == 0 {
        Seq::empty()
    } else {
        let p = batch_tenants(es.drop_last());
        let e = es.last();
        if kept(e) && !p.contains(e.tenant@) {
            p.push(e.tenant@)
        } else {
            p
        }
    }
}

/// The NDJSON body for tenant `t`: the data of each of its kept entries,
/// in order, each followed by a newline.
pub open spec fn tenant_rows(es: Seq<StreamEntry>, t: Seq<char>) -> Seq<char>
    decreases es.len(),
{
    if es.len() == 0 {
        Seq::empty()
    } else {
        let p = tenant_rows(es.drop_last(), t);
        let e = es.last();
        if kept(e) && e.tenant@ == t {
            p + e.data@ + "\n"@
        } else {
            p
        }
    }
}

proof fn lemma_rows_of_absent(es: Seq<StreamEntry>, t: Seq<char>)
    requires
        !batch_tenants(es).contains(t),
    ensures
        tenant_rows(es, t) == Seq::<char>::empty(),
    decreases es.len(),
{
    if es.len() > 0 {
        let p = batch_tenants(es.drop_last());
        assert(!p.contains(t)) by {
            if p.contains(t) {
                let k = choose|k: int| 0 <= k < p.len() && p[k] == t;
                if kept(es.last()) && !p.contains(es.last().tenant@) {
                    assert(batch_tenants(es)[k] == t);
                } else {
                    assert(batch_tenants(es)[k] == t);
                }
            }
        }
        lemma_rows_of_absent(es.drop_last(), t);
        if kept(es.last()) && es.last().tenant@ == t {
            assert(batch_tenants(es).contains(t)) by {
                if p.contains(es.last().tenant@) {
                } else {
                    assert(batch_tenants(es)[p.len() as int] == t);
                }
            }
        }
    }
}

/// A batch grouped for insertion: every stream id (to acknowledge) and, per
/// tenant, its NDJSON rows.
#[derive(Clone, Debug)]
pub struct DrainBatch {
    pub ids: Vec<String>,
    pub groups: Vec<(String, String)>,
}

/// Groups the entries of a batch by tenant (see `batch_tenants`,
/// `tenant_rows`); entries without a tenant or data are acknowledged but not
/// inserted.
pub fn group_batch(entries: &Vec<StreamEntry>) -> (r: DrainBatch)
    ensures
        texts(r.ids@) == Seq::new(entries@.len(), |i: int| entries@[i].id@),
        r.groups@.len() == batch_tenants(entries@).len(),
        forall|k: int| 0 <= k < r.groups@.len() ==> (#[trigger] r.groups@[k]).0@ == batch_tenants(entries@)[k]
            && r.groups@[k].1@ == tenant_rows(entries@, batch_tenants(entries@)[k]),
{
    let mut ids: Vec<String> = Vec::new();
    let mut groups: Vec<(String, String)> = Vec::new();
    let mut i: usize = 0;
    assert(entries@.take(0) =~= Seq::<StreamEntry>::empty());
    while i < entries.len()
        invariant
            i <= entries.len(),
            texts(ids@) =~= Seq::new(i as nat, |j: int| entries@[j].id@),
            groups@.len() == batch_tenants(entries@.take(i as int)).len(),
            forall|k: int| 0 <= k < groups@.len() ==> (#[trigger] groups@[k]).0@ == batch_tenants(entries@.take(i as int))[k]
                && groups@[k].1@ == tenant_rows(entries@.take(i as int), batch_tenants(entries@.take(i as int))[k]),
            forall|a: int, b: int| 0 <= a < b < groups@.len() ==> groups@[a].0@ != groups@[b].0@,
        decreases entries.len() - i,
    {
        let e = &entries[i];
        let ghost pre = entries@.take(i as int);
        let ghost post = entries@.take(i + 1);
        assert(post.drop_last() =~= pre);
        assert(post.last() == *e);
        push_text(&mut ids, string_of(&chars_of(e.id.as_str())));
        if !e.tenant.as_str().is_empty() && !e.data.as_str().is_empty() {
            let t = chars_of(e.tenant.as_str());
            let fk = find_group(&groups, e.tenant.as_str());
            if let Some(k) = fk {
                assert(groups@[k as int].0@ == t@);
                assert(batch_tenants(pre).contains(e.tenant@)) by {
                    assert(batch_tenants(pre)[k as int] == e.tenant@);
                }
                let ghost old_groups = groups@;
                let name = groups[k].0.clone();
                let mut rows = groups[k].1.clone();
                rows.append(e.data.as_str());
                rows.append("\n");
                groups.set(k, (name, rows));
                assert forall|j: int| 0 <= j < groups@.len() implies (#[trigger] groups@[j]).0@ == batch_tenants(post)[j]
                    && groups@[j].1@ == tenant_rows(post, batch_tenants(post)[j]) by {
                    if j != k {
                        assert(groups@[j] == old_groups[j]);
                    }
                }
            } else {
                assert(!batch_tenants(pre).contains(e.tenant@)) by {
                    if batch_tenants(pre).contains(e.tenant@) {
                        let j = choose|j: int| 0 <= j < batch_tenants(pre).len() && batch_tenants(pre)[j] == e.tenant@;
                        assert(groups@[j].0@ == t@);
                    }
                }
                proof {
                    lemma_rows_of_absent(pre, e.tenant@);
                }
                let mut rows = string_of(&chars_of(e.data.as_str()));
                rows.append("\n");
                let ghost old_groups = groups@;
                groups.push((string_of(&t), rows));
                assert(batch_tenants(post) == batch_tenants(pre).push(e.tenant@));
                assert forall|j: int| 0 <= j < groups@.len() implies (#[trigger] groups@[j]).0@ == batch_tenants(post)[j]
                    && groups@[j].1@ == tenant_rows(post, batch_tenants(post)[j]) by {
                    if j < old_groups.len() {
                        assert(groups@[j] == old_groups[j]);
                        assert(old_groups[j].0@ != t@);
                    } else {
                        assert(tenant_rows(pre, e.tenant@) =~= Seq::<char>::empty());
                        assert(groups@[j].1@ =~= tenant_rows(post, batch_tenants(post)[j]));
                    }
                }
            }
        } else {
            assert forall|j: int| 0 <= j < groups@.len() implies (#[trigger] groups@[j]).0@ == batch_tenants(post)[j]
                && groups@[j].1@ == tenant_rows(post, batch_tenants(post)[j]) by {
            }
        }
        i = i + 1;
    }
    assert(entries@.take(entries.len() as int) =~= entries@);
    DrainBatch { ids, groups }
}

/// Index of the group of tenant `t`.
fn find_group(groups: &Vec<(String, String)>, t: &str) -> (r: Option<usize>)
    ensures
        r matches Some(k) ==> k < groups@.len() && groups@[k as int].0@ == t@,
        r is None ==> forall|j: int| 0 <= j < groups@.len() ==> groups@[j].0@ != t@,
{
    let tv = chars_of(t);
    let mut k: usize = 0;
    while k < groups.len()
        invariant
            k <= groups.len(),
            tv@ == t@,
            forall|j: int| 0 <= j < k ==> groups@[j].0@ != t@,
        decreases groups.len() - k,
    {
        if chars_eq(&chars_of(groups[k].0.as_str()), &tv) {
            return Some(k);
        }
        k = k + 1;
    }
    None
}

/// `CREATE DATABASE IF NOT EXISTS` for a tenant's database.
pub open spec fn create_database_sql_text(tenant: Seq<char>) -> Seq<char> {
    "CREATE DATABASE IF NOT EXISTS `"@ + tenant + "`"@
}

pub fn create_database_sql(tenant: &str) -> (r: String)
    ensures
        r@ == create_database_sql_text(tenant@),
{
    let mut c: Vec<char> = Vec::new();
    extend_str(&mut c, "CREATE DATABASE IF NOT EXISTS `");
    extend_str(&mut c, tenant);
    extend_str(&mut c, "`");
    string_of(&c)
}

/// What the drain does next with a grouped batch.
#[derive(Clone, Copy, Debug, PartialEq, Eq, Structural)]
pub enum DrainAction {
    /// Create the events table of group `i`'s tenant.
    EnsureTable(usize),
    /// Insert group `i`'s rows.
    Insert(usize),
    /// Every group is stored: acknowledge the batch.
    Ack,
    /// A step failed: leave the batch unacknowledged and back off.
    Retry,
}

/// How far the drain got with the current batch: groups inserted so far,
/// and whether a step failed.
#[derive(Clone, Copy, Debug, PartialEq, Eq, Structural)]
pub struct DrainProgress {
    pub inserted: usize,
    pub failed: bool,
}

/// The tenant names of a batch's groups.
pub open spec fn group_names(groups: Seq<(String, String)>) -> Seq<Seq<char>> {
    Seq::new(groups.len(), |i: int| groups[i].0@)
}

/// Whether no name occurs twice in `s`.
pub open spec fn no_repeats(s: Seq<Seq<char>>) -> bool {
    forall|i: int, j: int| 0 <= i < j < s.len() ==> s[i] != s[j]
}

/// The next step from progress `p` over groups of tenants `names`, where
/// the tenants in `ensured` have their table: retry after a failure;
/// acknowledge once every group is inserted; otherwise insert the next
/// group when its tenant's table exists, else create that table first.
pub open spec fn next_step(p: DrainProgress, names: Seq<Seq<char>>, ensured: Seq<Seq<char>>) -> DrainAction {
    if p.failed {
        DrainAction::Retry
    } else if p.inserted >= names.len() {
        DrainAction::Ack
    } else if ensured.contains(names[p.inserted as int]) {
        DrainAction::Insert(p.inserted)
    } else {
        DrainAction::EnsureTable(p.inserted)
    }
}

/// Progress and ensured tenants after creating the next group's table
/// succeeded (`ok`: the tenant joins `ensured`) or failed.
pub open spec fn after_table(p: DrainProgress, names: Seq<Seq<char>>, ensured: Seq<Seq<char>>, ok: bool) -> (DrainProgress, Seq<Seq<char>>) {
    if ok {
        (p, ensured.push(names[p.inserted as int]))
    } else {
        (DrainProgress { failed: true, ..p }, ensured)
    }
}

/// Progress after inserting the next group's rows succeeded (`ok`) or failed.
pub open spec fn after_insert(p: DrainProgress, ok: bool) -> DrainProgress {
    if ok {
        DrainProgress { inserted: (p.inserted + 1) as usize, ..p }
    } else {
        DrainProgress { failed: true, ..p }
    }
}

impl DrainProgress {
    pub fn new() -> (p: Self)
        ensures
            p.inserted == 0 && !p.failed,
    {
        DrainProgress { inserted: 0, failed: false }
    }

    /// The next step (see `next_step`).
    pub fn next_action(&self, groups: &Vec<(String, String)>, ensured: &Vec<String>) -> (r: DrainAction)
        ensures
            r == next_step(*self, group_names(groups@), texts(ensured@)),
    {
        if self.failed {
            DrainAction::Retry
        } else if self.inserted >= groups.len() {
            DrainAction::Ack
        } else if contains_text(ensured, groups[self.inserted].0.as_str()) {
            DrainAction::Insert(self.inserted)
        } else {
            DrainAction::EnsureTable(self.inserted)
        }
    }

    /// Records the outcome of creating the next group's table (see
    /// `after_table`): on success its tenant joins `ensured`.
    pub fn table_done(&mut self, ok: bool, groups: &Vec<(String, String)>, ensured: &mut Vec<String>)
        requires
            old(self).inserted < groups@.len(),
        ensures
            (*final(self), texts(final(ensured)@)) == after_table(
                *old(self),
                group_names(groups@),
                texts(old(ensured)@),
                ok,
            ),
    {
        if ok {
            let t = string_of(&chars_of(groups[self.inserted].0.as_str()));
            push_text(ensured, t);
        } else {
            self.failed = true;
        }
    }

    /// Records the outcome of inserting the next group's rows.
    pub fn insert_done(&mut self, ok: bool)
        requires
            old(self).inserted < usize::MAX,
        ensures
            *final(self) == after_insert(*old(self), ok),
    {
        if ok {
            self.inserted = self.inserted + 1;
        } else {
            self.failed = true;
        }
    }
}

/// Progress and ensured tenants reached from `(p, ensured)` when the steps
/// that `next_step` chooses have the outcomes `outs`, in order (an outcome
/// for `Ack` or `Retry` changes nothing).
pub open spec fn run(p: DrainProgress, ensured: Seq<Seq<char>>, names: Seq<Seq<char>>, outs: Seq<bool>) -> (DrainProgress, Seq<Seq<char>>)
    decreases outs.len(),
{
    if outs.len() == 0 {
        (p, ensured)
    } else {
        let (q, e) = run(p, ensured, names, outs.drop_last());
        match next_step(q, names, e) {
            DrainAction::EnsureTable(_) => after_table(q, names, e, outs.last()),
            DrainAction::Insert(_) => (after_insert(q, outs.last()), e),
            _ => (q, e),
        }
    }
}

/// The groups whose rows were inserted along such a run, in order.
pub open spec fn inserted_groups(p: DrainProgress, ensured: Seq<Seq<char>>, names: Seq<Seq<char>>, outs: Seq<bool>) -> Seq<nat>
    decreases outs.len(),
{
    if outs.len() == 0 {
        Seq::empty()
    } else {
        let (q, e) = run(p, ensured, names, outs.drop_last());
        let prev = inserted_groups(p, ensured, names, outs.drop_last());
        match next_step(q, names, e) {
            DrainAction::Insert(k) => if outs.last() { prev.push(k as nat) } else { prev },
            _ => prev,
        }
    }
}

proof fn lemma_run_from_start(ensured: Seq<Seq<char>>, names: Seq<Seq<char>>, outs: Seq<bool>)
    requires
        names.len() <= usize::MAX,
    ensures
        ({
            let p = run(DrainProgress { inserted: 0, failed: false }, ensured, names, outs).0;
            &&& p.inserted <= names.len()
            &&& inserted_groups(DrainProgress { inserted: 0, failed: false }, ensured, names, outs)
                == Seq::new(p.inserted as nat, |i: int| i as nat)
        }),
    decreases outs.len(),
{
    let s = DrainProgress { inserted: 0, failed: false };
    if outs.len() > 0 {
        lemma_run_from_start(ensured, names, outs.drop_last());
        let (q, e) = run(s, ensured, names, outs.drop_last());
        let p = run(s, ensured, names, outs).0;
        match next_step(q, names, e) {
            DrainAction::Insert(k) => {
                if outs.last() {
                    assert(inserted_groups(s, ensured, names, outs) =~= Seq::new(p.inserted as nat, |i: int| i as nat));
                }
            },
            _ => {},
        }
    }
}

/// A batch is acknowledged only once the rows of every group were inserted:
/// on a run from the start of a batch, when the next step is `Ack`, no step
/// failed and the groups inserted were exactly the first, the second, ...,
/// the last, each once.
pub proof fn lemma_ack_only_after_every_insert(ensured: Seq<Seq<char>>, names: Seq<Seq<char>>, outs: Seq<bool>)
    requires
        names.len() <= usize::MAX,
        next_step(
            run(DrainProgress { inserted: 0, failed: false }, ensured, names, outs).0,
            names,
            run(DrainProgress { inserted: 0, failed: false }, ensured, names, outs).1,
        ) is Ack,
    ensures
        !run(DrainProgress { inserted: 0, failed: false }, ensured, names, outs).0.failed,
        inserted_groups(DrainProgress { inserted: 0, failed: false }, ensured, names, outs)
            == Seq::new(names.len(), |i: int| i as nat),
{
    lemma_run_from_start(ensured, names, outs);
}

/// A failed step is never followed by an acknowledgement: from a failed
/// state every later step is `Retry` and nothing changes.
pub proof fn lemma_failure_is_final(p: DrainProgress, ensured: Seq<Seq<char>>, names: Seq<Seq<char>>, outs: Seq<bool>)
    requires
        p.failed,
    ensures
        run(p, ensured, names, outs) == (p, ensured),
        next_step(run(p, ensured, names, outs).0, names, ensured) is Retry,
    decreases outs.len(),
{
    if outs.len() > 0 {
        lemma_failure_is_final(p, ensured, names, outs.drop_last());
    }
}

/// A tenant's table is created at most once, and rows are inserted only into
/// tenants whose table was created: along any run the ensured tenants only
/// grow and never repeat, the table step is only taken for a tenant not yet
/// ensured, and the insert step only for one that is.
pub proof fn lemma_tables_ensured_once(p: DrainProgress, ensured: Seq<Seq<char>>, names: Seq<Seq<char>>, outs: Seq<bool>)
    requires
        no_repeats(ensured),
    ensures
        ({
            let (q, e) = run(p, ensured, names, outs);
            &&& no_repeats(e)
            &&& e.len() >= ensured.len() && e.take(ensured.len() as int) == ensured
            &&& match next_step(q, names, e) {
                DrainAction::EnsureTable(k) => !e.contains(names[k as int]),
                DrainAction::Insert(k) => e.contains(names[k as int]),
                _ => true,
            }
        }),
    decreases outs.len(),
{
    if outs.len() > 0 {
        lemma_tables_ensured_once(p, ensured, names, outs.drop_last());
        let (q, e) = run(p, ensured, names, outs.drop_last());
        let (q2, e2) = run(p, ensured, names, outs);
        match next_step(q, names, e) {
            DrainAction::EnsureTable(k) => {
                if outs.last() {
                    assert(e2 == e.push(names[k as int]));
                    assert(e2.take(ensured.len() as int) =~= e.take(ensured.len() as int));
                    assert forall|i: int, j: int| 0 <= i < j < e2.len() implies e2[i] != e2[j] by {
                        if j == e.len() {
                            assert(e[i] == e2[i]);
                        } else {
                            assert(e[i] == e2[i] && e[j] == e2[j]);
                        }
                    }
                }
            },
            _ => {},
        }
    } else {
        assert(ensured.take(ensured.len() as int) =~= ensured);
    }
}

} // verus!

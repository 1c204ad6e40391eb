//! The sync state store: per mailbox, the last-seen maximum message
//! identifier (watermark); per mailbox and calendar month, the snapshot of
//! extracted records. Held in memory with explicit key-uniqueness invariants;
//! a remote adapter around this interface is an I/O concern outside the
//! library.

use crate::parser::{EmailDetails, RecordModel};
use crate::text::u32_string;
use vstd::prelude::*;

verus! {

/// Logical table names of the store.
#[derive(Debug, Clone, Copy, PartialEq, Eq, Structural)]
pub enum Tables {
    Emails,
    Mailbox,
}

impl Tables {
    /// The table's name as persisted.
    pub fn name(&self) -> (r: String)
        ensures
            *self == Tables::Emails ==> r@ == "emails"@,
            *self == Tables::Mailbox ==> r@ == "mailbox"@,
    {
        match self {
            Tables::Emails => "emails".to_owned(),
            Tables::Mailbox => "mailbox".to_owned(),
        }
    }
}

/// The fields of a watermark row as written on insert or update.
#[derive(Debug, Clone)]
pub struct CreateMailboxMonthly {
    pub mailbox: String,
    pub updated_at: String,
    pub latest_uid: u32,
}

/// A stored watermark row: one per mailbox.
#[derive(Debug, Clone)]
pub struct MailboxMonthly {
    pub id: String,
    pub mailbox: String,
    pub updated_at: String,
    pub latest_uid: u32,
}

/// A batch of extracted records for one mailbox.
#[derive(Debug, Clone)]
pub struct Emails {
    pub mailbox: String,
    pub details: Vec<EmailDetails>,
}

/// The fields of a snapshot row as written on insert or update.
#[derive(Debug, Clone)]
pub struct CreateEmailMonthly {
    pub year_month: String,
    pub emails: Emails,
    pub updated_at: String,
}

/// A stored snapshot row: one per (mailbox, month).
#[derive(Debug, Clone)]
pub struct EmailMonthly {
    pub id: String,
    pub year_month: String,
    pub emails: Emails,
    pub updated_at: String,
}

/// The record models held by a batch.
pub open spec fn spec_models(details: Seq<EmailDetails>) -> Seq<RecordModel> {
    details.map_values(|d: EmailDetails| d@)
}

/// The first watermark row for a mailbox, scanning front to back.
pub open spec fn find_wm(rows: Seq<MailboxMonthly>, mb: Seq<char>) -> Option<MailboxMonthly>
    decreases rows.len(),
{
    if rows.len() == 0 {
        None
    } else if rows[0].mailbox@ == mb {
        Some(rows[0])
    } else {
        find_wm(rows.drop_first(), mb)
    }
}

/// The first snapshot row for a (mailbox, month), scanning front to back.
pub open spec fn find_snap(rows: Seq<EmailMonthly>, mb: Seq<char>, ym: Seq<char>) -> Option<
    EmailMonthly,
>
    decreases rows.len(),
{
    if rows.len() == 0 {
        None
    } else if rows[0].emails.mailbox@ == mb && rows[0].year_month@ == ym {
        Some(rows[0])
    } else {
        find_snap(rows.drop_first(), mb, ym)
    }
}

/// Pairwise-distinct message identifiers.
pub open spec fn unique_uids(recs: Seq<RecordModel>) -> bool {
    forall|i: int, j: int| 0 <= i < j < recs.len() ==> recs[i].uid != recs[j].uid
}

/// Some record in `recs` carries this identifier.
pub open spec fn spec_has_uid(recs: Seq<RecordModel>, uid: u32) -> bool {
    exists|i: int| 0 <= i < recs.len() && recs[i].uid == uid
}

/// The previously captured records that survive a re-sync: those whose
/// identifier is not among the freshly fetched ones, in stored order.
pub open spec fn spec_keep_old(old_items: Seq<RecordModel>, new_items: Seq<RecordModel>) -> Seq<
    RecordModel,
>
    decreases old_items.len(),
{
    if old_items.len() == 0 {
        Seq::<RecordModel>::empty()
    } else {
        let rest = spec_keep_old(old_items.drop_last(), new_items);
        if spec_has_uid(new_items, old_items.last().uid) {
            rest
        } else {
            rest.push(old_items.last())
        }
    }
}

/// The logical union that replaces a snapshot's record list on re-sync:
/// carried-forward old records followed by the fresh fetch.
pub open spec fn spec_merge(old_items: Seq<RecordModel>, new_items: Seq<RecordModel>) -> Seq<
    RecordModel,
> {
    spec_keep_old(old_items, new_items) + new_items
}

/// The greatest message identifier in a batch; 0 for an empty batch.
pub open spec fn spec_max_uid(recs: Seq<RecordModel>) -> u32
    decreases recs.len(),
{
    if recs.len() == 0 {
        0u32
    } else {
        let rest = spec_max_uid(recs.drop_last());
        if recs.last().uid > rest {
            recs.last().uid
        } else {
            rest
        }
    }
}

/// The watermark after committing a batch: the maximum of the stored
/// watermark (0 when absent) and the batch's greatest identifier.
pub open spec fn spec_new_watermark(cur: Option<u32>, recs: Seq<RecordModel>) -> u32 {
    let base = match cur {
        Some(w) => w,
        None => 0u32,
    };
    let m = spec_max_uid(recs);
    if m > base {
        m
    } else {
        base
    }
}

/// The in-memory sync state store.
pub struct MyDatabaseConnection {
    pub mailbox_rows: Vec<MailboxMonthly>,
    pub email_rows: Vec<EmailMonthly>,
    pub next_id: u32,
}

impl MyDatabaseConnection {
    /// The stored watermark for a mailbox.
    pub open spec fn wm_of(self, mb: Seq<char>) -> Option<u32> {
        match find_wm(self.mailbox_rows@, mb) {
            Some(r) => Some(r.latest_uid),
            None => None,
        }
    }

    /// The stored snapshot record list for a (mailbox, month).
    pub open spec fn snap_of(self, mb: Seq<char>, ym: Seq<char>) -> Option<Seq<RecordModel>> {
        match find_snap(self.email_rows@, mb, ym) {
            Some(r) => Some(spec_models(r.emails.details@)),
            None => None,
        }
    }

    /// The stored snapshot record list, empty when no snapshot exists yet.
    pub open spec fn snap_or_empty(self, mb: Seq<char>, ym: Seq<char>) -> Seq<RecordModel> {
        match self.snap_of(mb, ym) {
            Some(items) => items,
            None => Seq::<RecordModel>::empty(),
        }
    }

    /// Store invariant: at most one watermark row per mailbox, at most one
    /// snapshot row per (mailbox, month), and distinct message identifiers
    /// within each snapshot.
    pub open spec fn wf(self) -> bool {
        &&& forall|i: int, j: int|
            0 <= i < j < self.mailbox_rows@.len() ==> self.mailbox_rows@[i].mailbox@
                != self.mailbox_rows@[j].mailbox@
        &&& forall|i: int, j: int|
            0 <= i < j < self.email_rows@.len() ==> !(self.email_rows@[i].emails.mailbox@
                == self.email_rows@[j].emails.mailbox@ && self.email_rows@[i].year_month@
                == self.email_rows@[j].year_month@)
        &&& forall|i: int|
            0 <= i < self.email_rows@.len() ==> unique_uids(
                spec_models(#[trigger] self.email_rows@[i].emails.details@),
            )
    }

    /// An empty store.
    pub fn new() -> (r: Self)
        ensures
            r.wf(),
            forall|mb: Seq<char>| r.wm_of(mb) is None,
            forall|mb: Seq<char>, ym: Seq<char>| r.snap_of(mb, ym) is None,
    {
        MyDatabaseConnection { mailbox_rows: Vec::new(), email_rows: Vec::new(), next_id: 0 }
    }
}

// ---------------------------------------------------------------------------
// Lemmas about the find functions.
// ---------------------------------------------------------------------------

proof fn lemma_find_wm_from(rows: Seq<MailboxMonthly>, mb: Seq<char>, i: int)
    requires
        0 <= i <= rows.len(),
        forall|k: int| 0 <= k < i ==> rows[k].mailbox@ != mb,
    ensures
        find_wm(rows, mb) == find_wm(rows.skip(i), mb),
    decreases i,
{
    if i == 0 {
        assert(rows.skip(0) =~= rows);
    } else {
        lemma_find_wm_from(rows, mb, i - 1);
        let t = rows.skip(i - 1);
        assert(t[0] == rows[i - 1]);
        assert(t.drop_first() =~= rows.skip(i));
    }
}

proof fn lemma_find_wm_none(rows: Seq<MailboxMonthly>, mb: Seq<char>)
    requires
        forall|k: int| 0 <= k < rows.len() ==> rows[k].mailbox@ != mb,
    ensures
        find_wm(rows, mb) is None,
{
    lemma_find_wm_from(rows, mb, rows.len() as int);
    assert(rows.skip(rows.len() as int) =~= Seq::<MailboxMonthly>::empty());
}

proof fn lemma_find_wm_at(rows: Seq<MailboxMonthly>, mb: Seq<char>, i: int)
    requires
        0 <= i < rows.len(),
        forall|k: int| 0 <= k < i ==> rows[k].mailbox@ != mb,
        rows[i].mailbox@ == mb,
    ensures
        find_wm(rows, mb) == Some(rows[i]),
{
    lemma_find_wm_from(rows, mb, i);
    let t = rows.skip(i);
    assert(t[0] == rows[i]);
}

proof fn lemma_find_snap_from(rows: Seq<EmailMonthly>, mb: Seq<char>, ym: Seq<char>, i: int)
    requires
        0 <= i <= rows.len(),
        forall|k: int|
            0 <= k < i ==> !(rows[k].emails.mailbox@ == mb && rows[k].year_month@ == ym),
    ensures
        find_snap(rows, mb, ym) == find_snap(rows.skip(i), mb, ym),
    decreases i,
{
    if i == 0 {
        assert(rows.skip(0) =~= rows);
    } else {
        lemma_find_snap_from(rows, mb, ym, i - 1);
        let t = rows.skip(i - 1);
        assert(t[0] == rows[i - 1]);
        assert(t.drop_first() =~= rows.skip(i));
    }
}

proof fn lemma_find_snap_none(rows: Seq<EmailMonthly>, mb: Seq<char>, ym: Seq<char>)
    requires
        forall|k: int|
            0 <= k < rows.len() ==> !(rows[k].emails.mailbox@ == mb && rows[k].year_month@ == ym),
    ensures
        find_snap(rows, mb, ym) is None,
{
    lemma_find_snap_from(rows, mb, ym, rows.len() as int);
    assert(rows.skip(rows.len() as int) =~= Seq::<EmailMonthly>::empty());
}

proof fn lemma_find_snap_at(rows: Seq<EmailMonthly>, mb: Seq<char>, ym: Seq<char>, i: int)
    requires
        0 <= i < rows.len(),
        forall|k: int|
            0 <= k < i ==> !(rows[k].emails.mailbox@ == mb && rows[k].year_month@ == ym),
        rows[i].emails.mailbox@ == mb,
        rows[i].year_month@ == ym,
    ensures
        find_snap(rows, mb, ym) == Some(rows[i]),
{
    lemma_find_snap_from(rows, mb, ym, i);
    let t = rows.skip(i);
    assert(t[0] == rows[i]);
}

proof fn lemma_find_wm_update(rows: Seq<MailboxMonthly>, idx: int, row: MailboxMonthly, mb: Seq<char>)
    requires
        0 <= idx < rows.len(),
        row.mailbox@ == rows[idx].mailbox@,
        forall|i: int, j: int|
            0 <= i < j < rows.len() ==> rows[i].mailbox@ != rows[j].mailbox@,
    ensures
        find_wm(rows.update(idx, row), mb) == (if mb == row.mailbox@ {
            Some(row)
        } else {
            find_wm(rows, mb)
        }),
    decreases idx,
{
    let rows2 = rows.update(idx, row);
    if idx == 0 {
        assert(rows2[0] == row);
        if mb == row.mailbox@ {
        } else {
            assert(rows2.drop_first() =~= rows.drop_first());
        }
    } else {
        assert(rows2[0] == rows[0]);
        if rows[0].mailbox@ == mb {
            assert(rows[0].mailbox@ != rows[idx].mailbox@);
            assert(find_wm(rows2, mb) == Some(rows[0]));
        } else {
            assert(rows2.drop_first() =~= rows.drop_first().update(idx - 1, row));
            assert(rows.drop_first()[idx - 1] == rows[idx]);
            lemma_find_wm_update(rows.drop_first(), idx - 1, row, mb);
        }
    }
}

proof fn lemma_find_wm_push(rows: Seq<MailboxMonthly>, row: MailboxMonthly, mb: Seq<char>)
    ensures
        find_wm(rows.push(row), mb) == (match find_wm(rows, mb) {
            Some(r) => Some(r),
            None => if row.mailbox@ == mb {
                Some(row)
            } else {
                None
            },
        }),
    decreases rows.len(),
{
    let rows2 = rows.push(row);
    if rows.len() == 0 {
        assert(rows2[0] == row);
        assert(rows2.drop_first() =~= Seq::<MailboxMonthly>::empty());
    } else {
        assert(rows2[0] == rows[0]);
        if rows[0].mailbox@ == mb {
        } else {
            assert(rows2.drop_first() =~= rows.drop_first().push(row));
            lemma_find_wm_push(rows.drop_first(), row, mb);
        }
    }
}

proof fn lemma_find_snap_update(
    rows: Seq<EmailMonthly>,
    idx: int,
    row: EmailMonthly,
    mb: Seq<char>,
    ym: Seq<char>,
)
    requires
        0 <= idx < rows.len(),
        row.emails.mailbox@ == rows[idx].emails.mailbox@,
        row.year_month@ == rows[idx].year_month@,
        forall|i: int, j: int|
            0 <= i < j < rows.len() ==> !(rows[i].emails.mailbox@ == rows[j].emails.mailbox@
                && rows[i].year_month@ == rows[j].year_month@),
    ensures
        find_snap(rows.update(idx, row), mb, ym) == (if mb == row.emails.mailbox@ && ym
            == row.year_month@ {
            Some(row)
        } else {
            find_snap(rows, mb, ym)
        }),
    decreases idx,
{
    let rows2 = rows.update(idx, row);
    if idx == 0 {
        assert(rows2[0] == row);
        if mb == row.emails.mailbox@ && ym == row.year_month@ {
        } else {
            assert(rows2.drop_first() =~= rows.drop_first());
        }
    } else {
        assert(rows2[0] == rows[0]);
        if rows[0].emails.mailbox@ == mb && rows[0].year_month@ == ym {
            assert(!(rows[0].emails.mailbox@ == rows[idx].emails.mailbox@ && rows[0].year_month@
                == rows[idx].year_month@));
            assert(find_snap(rows2, mb, ym) == Some(rows[0]));
        } else {
            assert(rows2.drop_first() =~= rows.drop_first().update(idx - 1, row));
            assert(rows.drop_first()[idx - 1] == rows[idx]);
            lemma_find_snap_update(rows.drop_first(), idx - 1, row, mb, ym);
        }
    }
}

proof fn lemma_find_snap_push(rows: Seq<EmailMonthly>, row: EmailMonthly, mb: Seq<char>, ym: Seq<char>)
    ensures
        find_snap(rows.push(row), mb, ym) == (match find_snap(rows, mb, ym) {
            Some(r) => Some(r),
            None => if row.emails.mailbox@ == mb && row.year_month@ == ym {
                Some(row)
            } else {
                None
            },
        }),
    decreases rows.len(),
{
    let rows2 = rows.push(row);
    if rows.len() == 0 {
        assert(rows2[0] == row);
        assert(rows2.drop_first() =~= Seq::<EmailMonthly>::empty());
        assert(find_snap(Seq::<EmailMonthly>::empty(), mb, ym) is None);
        assert(find_snap(rows, mb, ym) is None);
        if row.emails.mailbox@ == mb && row.year_month@ == ym {
            assert(find_snap(rows2, mb, ym) == Some(row));
        } else {
            assert(find_snap(rows2, mb, ym) == find_snap(rows2.drop_first(), mb, ym));
        }
    } else {
        assert(rows2[0] == rows[0]);
        if rows[0].emails.mailbox@ == mb && rows[0].year_month@ == ym {
        } else {
            assert(rows2.drop_first() =~= rows.drop_first().push(row));
            lemma_find_snap_push(rows.drop_first(), row, mb, ym);
        }
    }
}

proof fn lemma_find_wm_none_forall(rows: Seq<MailboxMonthly>, mb: Seq<char>)
    requires
        find_wm(rows, mb) is None,
    ensures
        forall|k: int| 0 <= k < rows.len() ==> rows[k].mailbox@ != mb,
    decreases rows.len(),
{
    if rows.len() > 0 {
        lemma_find_wm_none_forall(rows.drop_first(), mb);
        assert forall|k: int| 0 <= k < rows.len() implies rows[k].mailbox@ != mb by {
            if k > 0 {
                assert(rows.drop_first()[k - 1] == rows[k]);
            }
        }
    }
}

proof fn lemma_find_snap_none_forall(rows: Seq<EmailMonthly>, mb: Seq<char>, ym: Seq<char>)
    requires
        find_snap(rows, mb, ym) is None,
    ensures
        forall|k: int|
            0 <= k < rows.len() ==> !(rows[k].emails.mailbox@ == mb && rows[k].year_month@ == ym),
    decreases rows.len(),
{
    if rows.len() > 0 {
        lemma_find_snap_none_forall(rows.drop_first(), mb, ym);
        assert forall|k: int|
            0 <= k < rows.len() implies !(rows[k].emails.mailbox@ == mb && rows[k].year_month@
            == ym) by {
            if k > 0 {
                assert(rows.drop_first()[k - 1] == rows[k]);
            }
        }
    }
}

// ---------------------------------------------------------------------------
// Lemmas about the snapshot merge.
// ---------------------------------------------------------------------------

proof fn lemma_keep_old_props(o: Seq<RecordModel>, n: Seq<RecordModel>)
    requires
        unique_uids(o),
    ensures
        unique_uids(spec_keep_old(o, n)),
        forall|k: int|
            0 <= k < spec_keep_old(o, n).len() ==> !spec_has_uid(
                n,
                #[trigger] spec_keep_old(o, n)[k].uid,
            ),
        forall|k: int|
            0 <= k < spec_keep_old(o, n).len() ==> spec_has_uid(
                o,
                #[trigger] spec_keep_old(o, n)[k].uid,
            ),
    decreases o.len(),
{
    if o.len() == 0 {
    } else {
        let prev = o.drop_last();
        assert(unique_uids(prev));
        lemma_keep_old_props(prev, n);
        let kept_prev = spec_keep_old(prev, n);
        let kept = spec_keep_old(o, n);
        assert forall|k: int| 0 <= k < kept_prev.len() implies spec_has_uid(
            o,
            kept_prev[k].uid,
        ) by {
            let j = choose|j: int| 0 <= j < prev.len() && prev[j].uid == kept_prev[k].uid;
            assert(o[j].uid == kept_prev[k].uid);
        }
        if !spec_has_uid(n, o.last().uid) {
            assert(kept == kept_prev.push(o.last()));
            assert forall|i: int, j: int| 0 <= i < j < kept.len() implies kept[i].uid
                != kept[j].uid by {
                if j == kept.len() - 1 {
                    let l = choose|l: int| 0 <= l < prev.len() && prev[l].uid == kept_prev[i].uid;
                    assert(o[l].uid == kept_prev[i].uid);
                    assert(o[l].uid != o.last().uid);
                }
            }
            assert(spec_has_uid(o, o.last().uid)) by {
                assert(o[o.len() - 1].uid == o.last().uid);
            }
        }
    }
}

proof fn lemma_merge_unique(o: Seq<RecordModel>, n: Seq<RecordModel>)
    requires
        unique_uids(o),
        unique_uids(n),
    ensures
        unique_uids(spec_merge(o, n)),
{
    lemma_keep_old_props(o, n);
    let k = spec_keep_old(o, n);
    let m = spec_merge(o, n);
    assert forall|i: int, j: int| 0 <= i < j < m.len() implies m[i].uid != m[j].uid by {
        if j < k.len() {
        } else if i >= k.len() {
            assert(m[i] == n[i - k.len()]);
            assert(m[j] == n[j - k.len()]);
        } else {
            assert(m[i] == k[i]);
            assert(m[j] == n[j - k.len()]);
            assert(!spec_has_uid(n, k[i].uid));
            assert(n[j - k.len()].uid != k[i].uid);
        }
    }
}

proof fn lemma_keep_old_concat(a: Seq<RecordModel>, b: Seq<RecordModel>, n: Seq<RecordModel>)
    ensures
        spec_keep_old(a + b, n) == spec_keep_old(a, n) + spec_keep_old(b, n),
    decreases b.len(),
{
    if b.len() == 0 {
        assert(a + b =~= a);
        assert(spec_keep_old(b, n) =~= Seq::<RecordModel>::empty());
        assert(spec_keep_old(a, n) + spec_keep_old(b, n) =~= spec_keep_old(a, n));
    } else {
        lemma_keep_old_concat(a, b.drop_last(), n);
        let ab = a + b;
        assert(ab.drop_last() =~= a + b.drop_last());
        assert(ab.last() == b.last());
        if spec_has_uid(n, b.last().uid) {
        } else {
            assert(spec_keep_old(a, n) + spec_keep_old(b.drop_last(), n).push(b.last()) =~= (
            spec_keep_old(a, n) + spec_keep_old(b.drop_last(), n)).push(b.last()));
        }
    }
}

proof fn lemma_keep_old_all_in(m: Seq<RecordModel>, n: Seq<RecordModel>)
    requires
        forall|k: int| 0 <= k < m.len() ==> spec_has_uid(n, #[trigger] m[k].uid),
    ensures
        spec_keep_old(m, n) == Seq::<RecordModel>::empty(),
    decreases m.len(),
{
    if m.len() > 0 {
        lemma_keep_old_all_in(m.drop_last(), n);
        assert(spec_has_uid(n, m[m.len() - 1].uid));
    }
}

proof fn lemma_keep_old_none_in(m: Seq<RecordModel>, n: Seq<RecordModel>)
    requires
        forall|k: int| 0 <= k < m.len() ==> !spec_has_uid(n, #[trigger] m[k].uid),
    ensures
        spec_keep_old(m, n) == m,
    decreases m.len(),
{
    if m.len() > 0 {
        lemma_keep_old_none_in(m.drop_last(), n);
        assert(!spec_has_uid(n, m[m.len() - 1].uid));
        assert(m.drop_last().push(m.last()) =~= m);
    }
}

/// Law (idempotence at the record level): replacing a snapshot's record list
/// with the union again, for the same fresh batch, changes nothing —
/// re-inserting identical records is safe.
pub proof fn lemma_merge_idempotent(o: Seq<RecordModel>, n: Seq<RecordModel>)
    requires
        unique_uids(o),
    ensures
        spec_merge(spec_merge(o, n), n) == spec_merge(o, n),
{
    lemma_keep_old_props(o, n);
    let kept = spec_keep_old(o, n);
    lemma_keep_old_concat(kept, n, n);
    assert forall|k: int| 0 <= k < n.len() implies spec_has_uid(n, #[trigger] n[k].uid) by {
        assert(n[k].uid == n[k].uid);
    }
    lemma_keep_old_all_in(n, n);
    lemma_keep_old_none_in(kept, n);
    assert(spec_keep_old(spec_merge(o, n), n) =~= kept);
}

// ---------------------------------------------------------------------------
// Executable helpers.
// ---------------------------------------------------------------------------

/// The greatest message identifier in a batch, 0 when it is empty.
fn max_uid_of(details: &Vec<EmailDetails>) -> (r: u32)
    ensures
        r == spec_max_uid(spec_models(details@)),
{
    let ghost models = spec_models(details@);
    let mut r: u32 = 0;
    let mut i: usize = 0;
    proof {
        assert(models.take(0) =~= Seq::<RecordModel>::empty());
    }
    while i < details.len()
        invariant
            i <= details@.len(),
            models == spec_models(details@),
            r == spec_max_uid(models.take(i as int)),
        decreases details@.len() - i,
    {
        proof {
            assert(models.take(i + 1).drop_last() =~= models.take(i as int));
            assert(models[i as int] == details@[i as int]@);
            assert(models.take(i + 1).last() == models[i as int]);
        }
        if details[i].uid > r {
            r = details[i].uid;
        }
        i = i + 1;
    }
    proof {
        assert(models.take(details@.len() as int) =~= models);
    }
    r
}

/// Whether some record of the batch carries this identifier.
fn contains_uid(details: &Vec<EmailDetails>, uid: u32) -> (r: bool)
    ensures
        r == spec_has_uid(spec_models(details@), uid),
{
    let ghost models = spec_models(details@);
    let mut i: usize = 0;
    while i < details.len()
        invariant
            i <= details@.len(),
            models == spec_models(details@),
            forall|k: int| 0 <= k < i ==> models[k].uid != uid,
        decreases details@.len() - i,
    {
        if details[i].uid == uid {
            proof {
                assert(models[i as int].uid == uid);
            }
            return true;
        }
        proof {
            assert(models[i as int] == details@[i as int]@);
        }
        i = i + 1;
    }
    false
}

/// A field-for-field copy of a record.
fn clone_details(x: &EmailDetails) -> (r: EmailDetails)
    ensures
        r@ == x@,
{
    let mut from: Vec<String> = Vec::new();
    let mut i: usize = 0;
    while i < x.from.len()
        invariant
            i <= x.from@.len(),
            from@.len() == i,
            forall|k: int| 0 <= k < i ==> #[trigger] from@[k]@ == x.from@[k]@,
        decreases x.from@.len() - i,
    {
        from.push(x.from[i].clone());
        i = i + 1;
    }
    let r = EmailDetails { subject: x.subject.clone(), from, date: x.date, uid: x.uid };
    proof {
        assert(r@.from =~~= x@.from);
        assert(r@ == x@);
    }
    r
}

/// The carried-forward old records: those whose identifier is not among the
/// freshly fetched ones.
fn keep_old_items(old_items: &Vec<EmailDetails>, new_items: &Vec<EmailDetails>) -> (r: Vec<
    EmailDetails,
>)
    ensures
        spec_models(r@) == spec_keep_old(spec_models(old_items@), spec_models(new_items@)),
{
    let ghost o = spec_models(old_items@);
    let ghost n = spec_models(new_items@);
    let mut r: Vec<EmailDetails> = Vec::new();
    let mut i: usize = 0;
    proof {
        assert(o.take(0) =~= Seq::<RecordModel>::empty());
        assert(spec_models(r@) =~= Seq::<RecordModel>::empty());
    }
    while i < old_items.len()
        invariant
            i <= old_items@.len(),
            o == spec_models(old_items@),
            n == spec_models(new_items@),
            spec_models(r@) == spec_keep_old(o.take(i as int), n),
        decreases old_items@.len() - i,
    {
        proof {
            assert(o.take(i + 1).drop_last() =~= o.take(i as int));
            assert(o[i as int] == old_items@[i as int]@);
            assert(o.take(i + 1).last() == o[i as int]);
        }
        if !contains_uid(new_items, old_items[i].uid) {
            proof {
                assert(old_items@[i as int]@.uid == old_items@[i as int].uid);
            }
            let copied = clone_details(&old_items[i]);
            r.push(copied);
            proof {
                assert(spec_models(r@) =~= spec_keep_old(o.take(i as int), n).push(o[i as int]));
            }
        } else {
            proof {
                assert(old_items@[i as int]@.uid == old_items@[i as int].uid);
            }
        }
        i = i + 1;
    }
    proof {
        assert(o.take(old_items@.len() as int) =~= o);
    }
    r
}

fn find_wm_index(rows: &Vec<MailboxMonthly>, mailbox: &String) -> (r: Option<usize>)
    ensures
        (match r {
            Some(idx) => idx < rows@.len() && rows@[idx as int].mailbox@ == mailbox@ && find_wm(
                rows@,
                mailbox@,
            ) == Some(rows@[idx as int]),
            None => find_wm(rows@, mailbox@) is None,
        }),
{
    let mut i: usize = 0;
    while i < rows.len()
        invariant
            i <= rows@.len(),
            forall|k: int| 0 <= k < i ==> rows@[k].mailbox@ != mailbox@,
        decreases rows@.len() - i,
    {
        if rows[i].mailbox.eq(mailbox) {
            proof {
                lemma_find_wm_at(rows@, mailbox@, i as int);
            }
            return Some(i);
        }
        i = i + 1;
    }
    proof {
        lemma_find_wm_none(rows@, mailbox@);
    }
    None
}

fn find_snap_index(rows: &Vec<EmailMonthly>, mailbox: &String, year_month: &String) -> (r: Option<
    usize,
>)
    ensures
        (match r {
            Some(idx) => idx < rows@.len() && rows@[idx as int].emails.mailbox@ == mailbox@
                && rows@[idx as int].year_month@ == year_month@ && find_snap(
                rows@,
                mailbox@,
                year_month@,
            ) == Some(rows@[idx as int]),
            None => find_snap(rows@, mailbox@, year_month@) is None,
        }),
{
    let mut i: usize = 0;
    while i < rows.len()
        invariant
            i <= rows@.len(),
            forall|k: int|
                0 <= k < i ==> !(rows@[k].emails.mailbox@ == mailbox@ && rows@[k].year_month@
                    == year_month@),
        decreases rows@.len() - i,
    {
        if rows[i].emails.mailbox.eq(mailbox) && rows[i].year_month.eq(year_month) {
            proof {
                lemma_find_snap_at(rows@, mailbox@, year_month@, i as int);
            }
            return Some(i);
        }
        i = i + 1;
    }
    proof {
        lemma_find_snap_none(rows@, mailbox@, year_month@);
    }
    None
}

// ---------------------------------------------------------------------------
// The store operations.
// ---------------------------------------------------------------------------

impl MyDatabaseConnection {
    fn fresh_id(&mut self) -> (r: String)
        ensures
            final(self).mailbox_rows == old(self).mailbox_rows,
            final(self).email_rows == old(self).email_rows,
    {
        let id = u32_string(self.next_id);
        self.next_id = if self.next_id == u32::MAX {
            0
        } else {
            self.next_id + 1
        };
        id
    }

    /// The stored watermark for a mailbox.
    pub fn get_latest_uid_by_mailbox(&self, mailbox: &str) -> (r: Option<u32>)
        ensures
            r == self.wm_of(mailbox@),
    {
        let mb = mailbox.to_owned();
        match find_wm_index(&self.mailbox_rows, &mb) {
            Some(idx) => Some(self.mailbox_rows[idx].latest_uid),
            None => None,
        }
    }

    /// The row id of a mailbox's watermark row, when one exists.
    pub fn get_mailbox_id_by_mailbox(&self, mailbox: &str) -> (r: Option<String>)
        ensures
            (match find_wm(self.mailbox_rows@, mailbox@) {
                Some(row) => r matches Some(id) && id@ == row.id@,
                None => r is None,
            }),
    {
        let mb = mailbox.to_owned();
        match find_wm_index(&self.mailbox_rows, &mb) {
            Some(idx) => Some(self.mailbox_rows[idx].id.clone()),
            None => None,
        }
    }

    /// Upserts the watermark row for the batch's mailbox: the new watermark
    /// is the maximum of the stored one (0 when absent) and the batch's
    /// greatest identifier.
    pub fn store_mailbox_info(&mut self, emails: &Emails, updated_at: &str)
        requires
            old(self).wf(),
        ensures
            final(self).wf(),
            (final(self).email_rows == old(self).email_rows),
            (final(self).wm_of(emails.mailbox@) == Some(
                spec_new_watermark(
                    old(self).wm_of(emails.mailbox@),
                    spec_models(emails.details@),
                ),
            )),
            forall|mb: Seq<char>|
                mb != emails.mailbox@ ==> final(self).wm_of(mb) == old(self).wm_of(mb),
            (match find_wm(final(self).mailbox_rows@, emails.mailbox@) {
                Some(row) => row.updated_at@ == updated_at@,
                None => false,
            }),
    {
        let current_max = max_uid_of(&emails.details);
        match find_wm_index(&self.mailbox_rows, &emails.mailbox) {
            Some(idx) => {
                let base = self.mailbox_rows[idx].latest_uid;
                let new_wm = if current_max > base {
                    current_max
                } else {
                    base
                };
                let old_row = self.mailbox_rows.remove(idx);
                let new_row = MailboxMonthly {
                    id: old_row.id,
                    mailbox: old_row.mailbox,
                    updated_at: updated_at.to_owned(),
                    latest_uid: new_wm,
                };
                self.mailbox_rows.insert(idx, new_row);
                proof {
                    let rows0 = old(self).mailbox_rows@;
                    assert(self.mailbox_rows@ =~= rows0.update(idx as int, new_row));
                    assert(new_row.mailbox@ == rows0[idx as int].mailbox@);
                    assert forall|mb: Seq<char>| true implies find_wm(self.mailbox_rows@, mb) == (
                    if mb == new_row.mailbox@ {
                        Some(new_row)
                    } else {
                        find_wm(rows0, mb)
                    }) by {
                        lemma_find_wm_update(rows0, idx as int, new_row, mb);
                    }
                    assert forall|i: int|
                        0 <= i < self.mailbox_rows@.len() implies self.mailbox_rows@[i].mailbox@
                        == rows0[i].mailbox@ by {}
                }
            },
            None => {
                let new_wm = current_max;
                let id = self.fresh_id();
                let row = MailboxMonthly {
                    id,
                    mailbox: emails.mailbox.clone(),
                    updated_at: updated_at.to_owned(),
                    latest_uid: new_wm,
                };
                self.mailbox_rows.push(row);
                proof {
                    let rows0 = old(self).mailbox_rows@;
                    assert(self.mailbox_rows@ =~= rows0.push(row));
                    assert forall|mb: Seq<char>| true implies find_wm(self.mailbox_rows@, mb) == (
                    match find_wm(rows0, mb) {
                        Some(r) => Some(r),
                        None => if row.mailbox@ == mb {
                            Some(row)
                        } else {
                            None
                        },
                    }) by {
                        lemma_find_wm_push(rows0, row, mb);
                    }
                    lemma_find_wm_none_forall(rows0, emails.mailbox@);
                }
            },
        }
    }

    /// Upserts the snapshot row for (mailbox, month) — replacing its record
    /// list with the logical union of the stored records and the fresh batch
    /// — and then advances the mailbox watermark.
    pub fn store_emails(&mut self, emails: Emails, year_month: &str, updated_at: &str)
        requires
            old(self).wf(),
            unique_uids(spec_models(emails.details@)),
        ensures
            final(self).wf(),
            (final(self).snap_of(emails.mailbox@, year_month@) == Some(
                spec_merge(
                    old(self).snap_or_empty(emails.mailbox@, year_month@),
                    spec_models(emails.details@),
                ),
            )),
            forall|mb: Seq<char>, ym: Seq<char>|
                !(mb == emails.mailbox@ && ym == year_month@) ==> final(self).snap_of(mb, ym)
                    == old(self).snap_of(mb, ym),
            (final(self).wm_of(emails.mailbox@) == Some(
                spec_new_watermark(
                    old(self).wm_of(emails.mailbox@),
                    spec_models(emails.details@),
                ),
            )),
            forall|mb: Seq<char>|
                mb != emails.mailbox@ ==> final(self).wm_of(mb) == old(self).wm_of(mb),
            (match find_snap(final(self).email_rows@, emails.mailbox@, year_month@) {
                Some(row) => row.updated_at@ == updated_at@ && row.year_month@ == year_month@,
                None => false,
            }),
    {
        self.store_mailbox_info(&emails, updated_at);
        let ghost mid = *self;
        let ghost new_models = spec_models(emails.details@);
        let ym_key = year_month.to_owned();
        match find_snap_index(&self.email_rows, &emails.mailbox, &ym_key) {
            Some(idx) => {
                let old_row = self.email_rows.remove(idx);
                let ghost old_models = spec_models(old_row.emails.details@);
                let mut merged = keep_old_items(&old_row.emails.details, &emails.details);
                let Emails { mailbox, details } = emails;
                let mut new_items = details;
                merged.append(&mut new_items);
                proof {
                    assert(spec_models(merged@) =~= spec_keep_old(old_models, new_models)
                        + new_models);
                }
                let row = EmailMonthly {
                    id: old_row.id,
                    year_month: ym_key,
                    emails: Emails { mailbox, details: merged },
                    updated_at: updated_at.to_owned(),
                };
                self.email_rows.insert(idx, row);
                proof {
                    let rows0 = mid.email_rows@;
                    assert(self.email_rows@ =~= rows0.update(idx as int, row));
                    assert(row.emails.mailbox@ == rows0[idx as int].emails.mailbox@);
                    assert(row.year_month@ == rows0[idx as int].year_month@);
                    assert forall|mb: Seq<char>, ym: Seq<char>| true implies find_snap(
                        self.email_rows@,
                        mb,
                        ym,
                    ) == (if mb == row.emails.mailbox@ && ym == row.year_month@ {
                        Some(row)
                    } else {
                        find_snap(rows0, mb, ym)
                    }) by {
                        lemma_find_snap_update(rows0, idx as int, row, mb, ym);
                    }
                    assert(unique_uids(old_models));
                    lemma_merge_unique(old_models, new_models);
                    assert forall|i: int|
                        0 <= i < self.email_rows@.len() implies unique_uids(
                        spec_models(#[trigger] self.email_rows@[i].emails.details@),
                    ) by {
                        if i != idx {
                            assert(self.email_rows@[i] == rows0[i]);
                        }
                    }
                    assert(mid.snap_of(row.emails.mailbox@, row.year_month@) == Some(old_models));
                }
            },
            None => {
                let id = self.fresh_id();
                let Emails { mailbox, details } = emails;
                let row = EmailMonthly {
                    id,
                    year_month: ym_key,
                    emails: Emails { mailbox, details },
                    updated_at: updated_at.to_owned(),
                };
                self.email_rows.push(row);
                proof {
                    let rows0 = mid.email_rows@;
                    assert(self.email_rows@ =~= rows0.push(row));
                    assert forall|mb: Seq<char>, ym: Seq<char>| true implies find_snap(
                        self.email_rows@,
                        mb,
                        ym,
                    ) == (match find_snap(rows0, mb, ym) {
                        Some(r) => Some(r),
                        None => if row.emails.mailbox@ == mb && row.year_month@ == ym {
                            Some(row)
                        } else {
                            None
                        },
                    }) by {
                        lemma_find_snap_push(rows0, row, mb, ym);
                    }
                    lemma_find_snap_none_forall(rows0, row.emails.mailbox@, row.year_month@);
                    assert(spec_keep_old(Seq::<RecordModel>::empty(), new_models) =~= Seq::<
                        RecordModel,
                    >::empty());
                    assert(spec_merge(Seq::<RecordModel>::empty(), new_models) =~= new_models);
                    assert forall|i: int|
                        0 <= i < self.email_rows@.len() implies unique_uids(
                        spec_models(#[trigger] self.email_rows@[i].emails.details@),
                    ) by {
                        if i < rows0.len() {
                            assert(self.email_rows@[i] == rows0[i]);
                        } else {
                            assert(self.email_rows@[i] == row);
                        }
                    }
                }
            },
        }
    }
}

// ---------------------------------------------------------------------------
// Queries and removals.
// ---------------------------------------------------------------------------

/// The row ids of the snapshot rows of one month, in stored order.
pub open spec fn spec_month_ids(rows: Seq<EmailMonthly>, ym: Seq<char>) -> Seq<Seq<char>>
    decreases rows.len(),
{
    if rows.len() == 0 {
        Seq::<Seq<char>>::empty()
    } else {
        let rest = spec_month_ids(rows.drop_first(), ym);
        if rows[0].year_month@ == ym {
            seq![rows[0].id@] + rest
        } else {
            rest
        }
    }
}

/// The snapshot rows that survive deleting one month: those of any other
/// month, in stored order.
pub open spec fn spec_drop_month(rows: Seq<EmailMonthly>, ym: Seq<char>) -> Seq<EmailMonthly>
    decreases rows.len(),
{
    if rows.len() == 0 {
        Seq::<EmailMonthly>::empty()
    } else {
        let rest = spec_drop_month(rows.drop_first(), ym);
        if rows[0].year_month@ == ym {
            rest
        } else {
            seq![rows[0]] + rest
        }
    }
}

proof fn lemma_drop_month_find(rows: Seq<EmailMonthly>, ym: Seq<char>, mb: Seq<char>, ym2: Seq<char>)
    ensures
        find_snap(spec_drop_month(rows, ym), mb, ym2) == (if ym2 == ym {
            None
        } else {
            find_snap(rows, mb, ym2)
        }),
    decreases rows.len(),
{
    if rows.len() == 0 {
    } else {
        lemma_drop_month_find(rows.drop_first(), ym, mb, ym2);
        let dm = spec_drop_month(rows, ym);
        if rows[0].year_month@ == ym {
            if ym2 != ym && rows[0].emails.mailbox@ == mb && rows[0].year_month@ == ym2 {
                assert(false);
            }
        } else {
            let rest = spec_drop_month(rows.drop_first(), ym);
            assert(dm == seq![rows[0]] + rest);
            assert(dm[0] == rows[0]);
            assert(dm.drop_first() =~= rest);
        }
    }
}

proof fn lemma_drop_month_wf(rows: Seq<EmailMonthly>, ym: Seq<char>)
    requires
        forall|i: int, j: int|
            0 <= i < j < rows.len() ==> !(rows[i].emails.mailbox@ == rows[j].emails.mailbox@
                && rows[i].year_month@ == rows[j].year_month@),
    ensures
        forall|k: int|
            0 <= k < spec_drop_month(rows, ym).len() ==> exists|i: int|
                0 <= i < rows.len() && #[trigger] spec_drop_month(rows, ym)[k] == rows[i],
        forall|i: int, j: int|
            0 <= i < j < spec_drop_month(rows, ym).len() ==> !(spec_drop_month(rows, ym)[i].emails.mailbox@
                == spec_drop_month(rows, ym)[j].emails.mailbox@ && spec_drop_month(
                rows,
                ym,
            )[i].year_month@ == spec_drop_month(rows, ym)[j].year_month@),
    decreases rows.len(),
{
    if rows.len() == 0 {
    } else {
        let rest = rows.drop_first();
        lemma_drop_month_wf(rest, ym);
        let dm = spec_drop_month(rows, ym);
        let dmr = spec_drop_month(rest, ym);
        if rows[0].year_month@ == ym {
            assert forall|k: int| 0 <= k < dm.len() implies exists|i: int|
                0 <= i < rows.len() && #[trigger] dm[k] == rows[i] by {
                let i = choose|i: int| 0 <= i < rest.len() && dmr[k] == rest[i];
                assert(dm[k] == rows[i + 1]);
            }
        } else {
            assert(dm == seq![rows[0]] + dmr);
            assert forall|k: int| 0 <= k < dm.len() implies exists|i: int|
                0 <= i < rows.len() && #[trigger] dm[k] == rows[i] by {
                if k == 0 {
                    assert(dm[0] == rows[0]);
                } else {
                    let i = choose|i: int| 0 <= i < rest.len() && dmr[k - 1] == rest[i];
                    assert(dm[k] == rest[i]);
                    assert(dm[k] == rows[i + 1]);
                }
            }
            assert forall|i: int, j: int| 0 <= i < j < dm.len() implies !(dm[i].emails.mailbox@
                == dm[j].emails.mailbox@ && dm[i].year_month@ == dm[j].year_month@) by {
                if i == 0 {
                    let l = choose|l: int| 0 <= l < rest.len() && dmr[j - 1] == rest[l];
                    assert(dm[j] == rest[l]);
                    assert(rest[l] == rows[l + 1]);
                } else {
                    assert(dm[i] == dmr[i - 1]);
                    assert(dm[j] == dmr[j - 1]);
                }
            }
        }
    }
}

proof fn lemma_find_wm_remove(rows: Seq<MailboxMonthly>, idx: int, mb: Seq<char>)
    requires
        0 <= idx < rows.len(),
        forall|i: int, j: int|
            0 <= i < j < rows.len() ==> rows[i].mailbox@ != rows[j].mailbox@,
    ensures
        find_wm(rows.remove(idx), mb) == (if mb == rows[idx].mailbox@ {
            None
        } else {
            find_wm(rows, mb)
        }),
    decreases idx,
{
    let rows2 = rows.remove(idx);
    if idx == 0 {
        assert(rows2 =~= rows.drop_first());
        if mb == rows[0].mailbox@ {
            assert forall|k: int| 0 <= k < rows2.len() implies rows2[k].mailbox@ != mb by {
                assert(rows2[k] == rows[k + 1]);
            }
            lemma_find_wm_none(rows2, mb);
        }
    } else {
        assert(rows2[0] == rows[0]);
        if rows[0].mailbox@ == mb {
            assert(rows[0].mailbox@ != rows[idx].mailbox@);
            assert(find_wm(rows2, mb) == Some(rows[0]));
        } else {
            assert(rows2.drop_first() =~= rows.drop_first().remove(idx - 1));
            assert(rows.drop_first()[idx - 1] == rows[idx]);
            lemma_find_wm_remove(rows.drop_first(), idx - 1, mb);
        }
    }
}

impl MyDatabaseConnection {
    /// All stored watermark rows.
    pub fn get_mailboxes(&self) -> (r: Vec<MailboxMonthly>)
        ensures
            r@ == self.mailbox_rows@,
    {
        let mut r: Vec<MailboxMonthly> = Vec::new();
        let mut i: usize = 0;
        while i < self.mailbox_rows.len()
            invariant
                i <= self.mailbox_rows@.len(),
                r@ =~= self.mailbox_rows@.take(i as int),
            decreases self.mailbox_rows@.len() - i,
        {
            let row = &self.mailbox_rows[i];
            r.push(
                MailboxMonthly {
                    id: row.id.clone(),
                    mailbox: row.mailbox.clone(),
                    updated_at: row.updated_at.clone(),
                    latest_uid: row.latest_uid,
                },
            );
            i = i + 1;
        }
        proof {
            assert(self.mailbox_rows@.take(self.mailbox_rows@.len() as int)
                =~= self.mailbox_rows@);
        }
        r
    }

    /// The row ids of all watermark rows, in stored order.
    pub fn get_mailbox_ids(&self) -> (r: Vec<String>)
        ensures
            r@.len() == self.mailbox_rows@.len(),
            forall|k: int| 0 <= k < r@.len() ==> #[trigger] r@[k]@ == self.mailbox_rows@[k].id@,
    {
        let mut r: Vec<String> = Vec::new();
        let mut i: usize = 0;
        while i < self.mailbox_rows.len()
            invariant
                i <= self.mailbox_rows@.len(),
                r@.len() == i,
                forall|k: int| 0 <= k < i ==> #[trigger] r@[k]@ == self.mailbox_rows@[k].id@,
            decreases self.mailbox_rows@.len() - i,
        {
            r.push(self.mailbox_rows[i].id.clone());
            i = i + 1;
        }
        r
    }

    /// All stored snapshot rows.
    pub fn get_emails(&self) -> (r: &Vec<EmailMonthly>)
        ensures
            r@ == self.email_rows@,
    {
        &self.email_rows
    }

    /// The row ids of the snapshot rows of one month, in stored order.
    pub fn get_emails_ids_for_current_year_month(&self, year_month: &str) -> (r: Vec<String>)
        ensures
            r@.map_values(|s: String| s@) == spec_month_ids(self.email_rows@, year_month@),
    {
        let ym = year_month.to_owned();
        let ghost rows = self.email_rows@;
        let mut r: Vec<String> = Vec::new();
        let mut i: usize = 0;
        proof {
            assert(rows.skip(0) =~= rows);
            assert(r@.map_values(|s: String| s@) =~= Seq::<Seq<char>>::empty());
        }
        while i < self.email_rows.len()
            invariant
                i <= rows.len(),
                rows == self.email_rows@,
                ym@ == year_month@,
                r@.map_values(|s: String| s@) + spec_month_ids(rows.skip(i as int), year_month@)
                    =~= spec_month_ids(rows, year_month@),
            decreases rows.len() - i,
        {
            let ghost tail = rows.skip(i as int);
            proof {
                assert(tail[0] == rows[i as int]);
                assert(tail.drop_first() =~= rows.skip(i + 1));
            }
            if self.email_rows[i].year_month.eq(&ym) {
                let ghost before = r@.map_values(|s: String| s@);
                r.push(self.email_rows[i].id.clone());
                proof {
                    assert(r@.map_values(|s: String| s@) =~= before.push(rows[i as int].id@));
                    assert(spec_month_ids(tail, year_month@) =~= seq![rows[i as int].id@]
                        + spec_month_ids(rows.skip(i + 1), year_month@));
                    assert(r@.map_values(|s: String| s@) + spec_month_ids(
                        rows.skip(i + 1),
                        year_month@,
                    ) =~= spec_month_ids(rows, year_month@));
                }
            }
            i = i + 1;
        }
        proof {
            assert(rows.skip(rows.len() as int) =~= Seq::<EmailMonthly>::empty());
            assert(r@.map_values(|s: String| s@) =~= spec_month_ids(rows, year_month@));
        }
        r
    }

    /// The row id of the snapshot for (mailbox, month), when one exists.
    pub fn get_email_id_for_current_year_month_by_mailbox(
        &self,
        mailbox: &str,
        year_month: &str,
    ) -> (r: Option<String>)
        ensures
            (match find_snap(self.email_rows@, mailbox@, year_month@) {
                Some(row) => r matches Some(id) && id@ == row.id@,
                None => r is None,
            }),
    {
        let mb = mailbox.to_owned();
        let ym = year_month.to_owned();
        match find_snap_index(&self.email_rows, &mb, &ym) {
            Some(idx) => Some(self.email_rows[idx].id.clone()),
            None => None,
        }
    }

    /// Deletes every snapshot row of one month (an explicit operator action).
    pub fn remove_emails(&mut self, year_month: &str)
        requires
            old(self).wf(),
        ensures
            final(self).wf(),
            (final(self).mailbox_rows == old(self).mailbox_rows),
            forall|mb: Seq<char>| final(self).snap_of(mb, year_month@) is None,
            forall|mb: Seq<char>, ym: Seq<char>|
                ym != year_month@ ==> final(self).snap_of(mb, ym) == old(self).snap_of(mb, ym),
    {
        let ym_key = year_month.to_owned();
        let ghost rows0 = self.email_rows@;
        let mut kept: Vec<EmailMonthly> = Vec::new();
        while self.email_rows.len() > 0
            invariant
                ym_key@ == year_month@,
                kept@ + spec_drop_month(self.email_rows@, year_month@) =~= spec_drop_month(
                    rows0,
                    year_month@,
                ),
                self.mailbox_rows == old(self).mailbox_rows,
                forall|k: int| 0 <= k < kept@.len() ==> #[trigger] kept@[k].year_month@ != year_month@,
            decreases self.email_rows@.len(),
        {
            let ghost before = self.email_rows@;
            let row = self.email_rows.remove(0);
            proof {
                assert(self.email_rows@ =~= before.drop_first());
                assert(before[0] == row);
            }
            if !row.year_month.eq(&ym_key) {
                kept.push(row);
                proof {
                    assert(kept@ + spec_drop_month(self.email_rows@, year_month@) =~= spec_drop_month(
                        rows0,
                        year_month@,
                    ));
                }
            }
        }
        proof {
            assert(spec_drop_month(self.email_rows@, year_month@) =~= Seq::<EmailMonthly>::empty());
            assert(kept@ =~= spec_drop_month(rows0, year_month@));
        }
        self.email_rows = kept;
        proof {
            lemma_drop_month_wf(rows0, year_month@);
            assert forall|mb: Seq<char>, ym: Seq<char>| true implies find_snap(
                self.email_rows@,
                mb,
                ym,
            ) == (if ym == year_month@ {
                None
            } else {
                find_snap(rows0, mb, ym)
            }) by {
                lemma_drop_month_find(rows0, year_month@, mb, ym);
            }
            assert forall|i: int|
                0 <= i < self.email_rows@.len() implies unique_uids(
                spec_models(#[trigger] self.email_rows@[i].emails.details@),
            ) by {
                let l = choose|l: int|
                    0 <= l < rows0.len() && spec_drop_month(rows0, year_month@)[i] == rows0[l];
                assert(unique_uids(spec_models(rows0[l].emails.details@)));
            }
        }
    }

    /// Deletes the watermark row of one mailbox (an explicit operator action).
    pub fn remove_mailbox(&mut self, mailbox: &str)
        requires
            old(self).wf(),
        ensures
            final(self).wf(),
            (final(self).email_rows == old(self).email_rows),
            final(self).wm_of(mailbox@) is None,
            forall|mb: Seq<char>|
                mb != mailbox@ ==> final(self).wm_of(mb) == old(self).wm_of(mb),
    {
        let mb_key = mailbox.to_owned();
        match find_wm_index(&self.mailbox_rows, &mb_key) {
            Some(idx) => {
                let _removed = self.mailbox_rows.remove(idx);
                proof {
                    let rows0 = old(self).mailbox_rows@;
                    assert(self.mailbox_rows@ =~= rows0.remove(idx as int));
                    assert forall|mb: Seq<char>| true implies find_wm(self.mailbox_rows@, mb) == (
                    if mb == rows0[idx as int].mailbox@ {
                        None
                    } else {
                        find_wm(rows0, mb)
                    }) by {
                        lemma_find_wm_remove(rows0, idx as int, mb);
                    }
                    assert forall|i: int, j: int|
                        0 <= i < j < self.mailbox_rows@.len() implies self.mailbox_rows@[i].mailbox@
                        != self.mailbox_rows@[j].mailbox@ by {
                        let rows0 = old(self).mailbox_rows@;
                        if j < idx {
                        } else if i < idx {
                            assert(self.mailbox_rows@[i] == rows0[i]);
                            assert(self.mailbox_rows@[j] == rows0[j + 1]);
                        } else {
                            assert(self.mailbox_rows@[i] == rows0[i + 1]);
                            assert(self.mailbox_rows@[j] == rows0[j + 1]);
                        }
                    }
                }
            },
            None => {},
        }
    }
}

// ---------------------------------------------------------------------------
// Laws of the watermark computation.
// ---------------------------------------------------------------------------

/// Law (monotonicity, one step): committing a batch never decreases the
/// stored watermark.
pub proof fn lemma_watermark_monotone_step(cur: Option<u32>, recs: Seq<RecordModel>)
    ensures
        cur matches Some(w) ==> spec_new_watermark(cur, recs) >= w,
{
}

/// Law (idempotence): committing the same batch a second time leaves the
/// watermark unchanged.
pub proof fn lemma_watermark_idempotent(cur: Option<u32>, recs: Seq<RecordModel>)
    ensures
        spec_new_watermark(Some(spec_new_watermark(cur, recs)), recs) == spec_new_watermark(
            cur,
            recs,
        ),
{
}

/// Law (idempotence, no new mail): committing an empty batch leaves the
/// watermark unchanged.
pub proof fn lemma_watermark_no_new_mail(w: u32)
    ensures
        spec_new_watermark(Some(w), Seq::<RecordModel>::empty()) == w,
{
}

/// The watermark after a sequence of committed batches.
pub open spec fn spec_watermark_after(initial: Option<u32>, batches: Seq<Seq<RecordModel>>) -> Option<
    u32,
>
    decreases batches.len(),
{
    if batches.len() == 0 {
        initial
    } else {
        Some(
            spec_new_watermark(
                spec_watermark_after(initial, batches.drop_last()),
                batches.last(),
            ),
        )
    }
}

/// Law (monotonicity): across any sequence of syncs the watermark never
/// decreases.
pub proof fn lemma_watermark_monotone(initial: Option<u32>, batches: Seq<Seq<RecordModel>>)
    requires
        initial matches Some(w),
    ensures
        spec_watermark_after(initial, batches) matches Some(w2) && w2 >= initial->0,
    decreases batches.len(),
{
    if batches.len() == 0 {
    } else {
        lemma_watermark_monotone(initial, batches.drop_last());
    }
}

} // verus!

//! The table of sessions that the daemon keeps, and what each request does to it.
use crate::order;
use crate::order::is_before;
use crate::protocol::record_views;
use crate::protocol::{RecordView, SessionRecord, SessionState};
use crate::record;
use crate::text::same_text;
use vstd::prelude::*;
use vstd::string::*;

verus! {

/// A session in the daemon's table. `M` is a handle on its terminal, `I` one on
/// its output.
pub struct ManagedSession<M, I> {
    pub record: SessionRecord,
    pub master: Option<M>,
    pub io: I,
    pub attached: bool,
}

/// The contents of a session in the table.
#[verifier::ext_equal]
pub struct SessionView<M, I> {
    pub record: RecordView,
    pub master: Option<M>,
    pub io: I,
    pub attached: bool,
}

impl<M, I> View for ManagedSession<M, I> {
    type V = SessionView<M, I>;

    open spec fn view(&self) -> SessionView<M, I> {
        SessionView {
            record: self.record@,
            master: self.master,
            io: self.io,
            attached: self.attached,
        }
    }
}

/// The sessions, each under its name.
pub struct Sessions<M, I> {
    entries: Vec<ManagedSession<M, I>>,
}

/// A table in which every session stands under the name in its record.
pub open spec fn named<M, I>(table: Map<Seq<char>, SessionView<M, I>>) -> bool {
    forall|name: Seq<char>| #[trigger]
        table.dom().contains(name) ==> table[name].record.name == name
}

/// A session that has a terminal if it runs.
pub open spec fn has_terminal<M, I>(session: SessionView<M, I>) -> bool {
    session.record.state == SessionState::Running ==> session.master is Some
}

/// A table in which every session that runs has a terminal.
pub open spec fn have_terminals<M, I>(table: Map<Seq<char>, SessionView<M, I>>) -> bool {
    forall|name: Seq<char>| #[trigger]
        table.dom().contains(name) ==> has_terminal(table[name])
}

/// The table after the record of the session `name` was brought up to date.
pub open spec fn refreshed_at<M, I>(
    table: Map<Seq<char>, SessionView<M, I>>,
    name: Seq<char>,
    alive: bool,
) -> Map<Seq<char>, SessionView<M, I>> {
    table.insert(
        name,
        SessionView { record: record::refreshed(table[name].record, alive), ..table[name] },
    )
}

/// The table after the session `name` was attached to.
pub open spec fn stamped_at<M, I>(
    table: Map<Seq<char>, SessionView<M, I>>,
    name: Seq<char>,
    stamp: Seq<char>,
) -> Map<Seq<char>, SessionView<M, I>> {
    let record = RecordView { last_attached_at: Some(stamp), ..table[name].record };
    table.insert(name, SessionView { record, ..table[name] })
}

/// The table after the command of the session `name` was ended.
pub open spec fn retired_at<M, I>(
    table: Map<Seq<char>, SessionView<M, I>>,
    name: Seq<char>,
) -> Map<Seq<char>, SessionView<M, I>> {
    let record = record::exited(table[name].record, None);
    table.insert(name, SessionView { record, master: None, attached: false, ..table[name] })
}

/// `after` is the session `before` with its record brought up to date, by what the
/// system said of its process.
pub open spec fn view_refreshed<M, I>(before: SessionView<M, I>, after: SessionView<M, I>) -> bool {
    &&& {
        ||| after == SessionView { record: record::refreshed(before.record, true), ..before }
        ||| after == SessionView { record: record::refreshed(before.record, false), ..before }
    }
    &&& record::brought_up_to_date(before.record, after.record)
}

/// `after` is `before` with every record brought up to date, each by what the system
/// said of its process.
pub open spec fn some_refresh<M, I>(
    before: Map<Seq<char>, SessionView<M, I>>,
    after: Map<Seq<char>, SessionView<M, I>>,
) -> bool {
    &&& after.dom() == before.dom()
    &&& forall|name: Seq<char>| #[trigger]
        before.dom().contains(name) ==> view_refreshed(before[name], after[name])
}

/// The records stand in the order of their names, no name twice.
pub open spec fn in_order(records: Seq<RecordView>) -> bool {
    forall|i: int, j: int|
        0 <= i < j < records.len() ==> order::text_before(
            (#[trigger] records[i]).name,
            (#[trigger] records[j]).name,
        )
}

/// `list` holds the record of every session in the table once, in the order of
/// the names.
pub open spec fn is_listing<M, I>(
    table: Map<Seq<char>, SessionView<M, I>>,
    list: Seq<RecordView>,
) -> bool {
    &&& in_order(list)
    &&& forall|k: int|
        0 <= k < list.len() ==> table.dom().contains((#[trigger] list[k]).name) && list[k]
            == table[list[k].name].record
    &&& forall|name: Seq<char>| #[trigger]
        table.dom().contains(name) ==> exists|k: int|
            0 <= k < list.len() && (#[trigger] list[k]).name == name
}

/// The entry at `i` is the one of the session `name`.
spec fn holds<M, I>(entries: Seq<ManagedSession<M, I>>, i: int, name: Seq<char>) -> bool {
    0 <= i < entries.len() && entries[i].record.name@ == name
}

/// No two entries have the same name.
spec fn distinct<M, I>(entries: Seq<ManagedSession<M, I>>) -> bool {
    forall|i: int, j: int|
        0 <= i < j < entries.len() ==> (#[trigger] entries[i]).record.name@ != (
        #[trigger] entries[j]).record.name@
}

/// `view` is the record of one of the entries.
spec fn among<M, I>(entries: Seq<ManagedSession<M, I>>, view: RecordView) -> bool {
    exists|j: int| 0 <= j < entries.len() && (#[trigger] entries[j]).record@ == view
}

/// `view` is one of the records in the list.
spec fn listed(list: Seq<SessionRecord>, view: RecordView) -> bool {
    exists|k: int| 0 <= k < list.len() && (#[trigger] list[k])@ == view
}

/// `list` holds the records of all the entries, and no others.
spec fn lists<M, I>(list: Seq<SessionRecord>, entries: Seq<ManagedSession<M, I>>) -> bool {
    &&& forall|k: int| 0 <= k < list.len() ==> #[trigger] among(entries, list[k]@)
    &&& forall|j: int| 0 <= j < entries.len() ==> #[trigger] listed(list, entries[j].record@)
}

/// The entries by name.
spec fn table_of<M, I>(entries: Seq<ManagedSession<M, I>>) -> Map<Seq<char>, SessionView<M, I>> {
    Map::new(
        |name: Seq<char>| exists|i: int| holds(entries, i, name),
        |name: Seq<char>| entries[choose|i: int| holds(entries, i, name)]@,
    )
}

impl<M, I> View for Sessions<M, I> {
    type V = Map<Seq<char>, SessionView<M, I>>;

    closed spec fn view(&self) -> Map<Seq<char>, SessionView<M, I>> {
        table_of(self.entries@)
    }
}

/// Every entry stands in the table under its name.
proof fn lemma_entry<M, I>(entries: Seq<ManagedSession<M, I>>, i: int)
    requires
        distinct(entries),
        0 <= i < entries.len(),
    ensures
        table_of(entries).dom().contains(entries[i].record.name@),
        table_of(entries)[entries[i].record.name@] == entries[i]@,
{
    let name = entries[i].record.name@;
    assert(holds(entries, i, name));
    let j = choose|j: int| holds(entries, j, name);
    assert(holds(entries, j, name));
    assert(i == j);
}

/// Replacing an entry by one of the same name replaces it in the table.
proof fn lemma_update<M, I>(
    entries: Seq<ManagedSession<M, I>>,
    i: int,
    entry: ManagedSession<M, I>,
)
    requires
        distinct(entries),
        0 <= i < entries.len(),
        entry.record.name@ == entries[i].record.name@,
    ensures
        distinct(entries.update(i, entry)),
        table_of(entries.update(i, entry)) == table_of(entries).insert(
            entry.record.name@,
            entry@,
        ),
{
    let after = entries.update(i, entry);
    assert(distinct(after)) by {
        assert forall|a: int, b: int| 0 <= a < b < after.len() implies (
        #[trigger] after[a]).record.name@ != (#[trigger] after[b]).record.name@ by {
            assert(after[a].record.name@ == entries[a].record.name@);
            assert(after[b].record.name@ == entries[b].record.name@);
        }
    }
    let left = table_of(after);
    let right = table_of(entries).insert(entry.record.name@, entry@);
    assert forall|name: Seq<char>| left.dom().contains(name) == right.dom().contains(name) by {
        if left.dom().contains(name) {
            let j = choose|j: int| holds(after, j, name);
            assert(holds(entries, j, name));
        }
        if right.dom().contains(name) {
            if name == entry.record.name@ {
                assert(holds(after, i, name));
            } else {
                let j = choose|j: int| holds(entries, j, name);
                assert(holds(after, j, name));
            }
        }
    }
    assert forall|name: Seq<char>| left.dom().contains(name) implies left[name] == right[name] by {
        let j = choose|j: int| holds(after, j, name);
        lemma_entry(after, j);
        lemma_entry(entries, j);
    }
    assert(left =~= right);
}

/// Adding an entry with a new name adds it to the table.
proof fn lemma_push<M, I>(entries: Seq<ManagedSession<M, I>>, entry: ManagedSession<M, I>)
    requires
        distinct(entries),
        forall|i: int| !holds(entries, i, entry.record.name@),
    ensures
        distinct(entries.push(entry)),
        table_of(entries.push(entry)) == table_of(entries).insert(entry.record.name@, entry@),
{
    let after = entries.push(entry);
    assert(distinct(after)) by {
        assert forall|a: int, b: int| 0 <= a < b < after.len() implies (
        #[trigger] after[a]).record.name@ != (#[trigger] after[b]).record.name@ by {
            assert(!holds(entries, a, entry.record.name@));
        }
    }
    let left = table_of(after);
    let right = table_of(entries).insert(entry.record.name@, entry@);
    assert forall|name: Seq<char>| left.dom().contains(name) == right.dom().contains(name) by {
        if left.dom().contains(name) {
            let j = choose|j: int| holds(after, j, name);
            if j < entries.len() {
                assert(holds(entries, j, name));
            }
        }
        if right.dom().contains(name) {
            if name == entry.record.name@ {
                assert(holds(after, entries.len() as int, name));
            } else {
                let j = choose|j: int| holds(entries, j, name);
                assert(holds(after, j, name));
            }
        }
    }
    assert forall|name: Seq<char>| left.dom().contains(name) implies left[name] == right[name] by {
        let j = choose|j: int| holds(after, j, name);
        lemma_entry(after, j);
        if j < entries.len() {
            lemma_entry(entries, j);
            assert(!holds(entries, j, entry.record.name@));
        }
    }
    assert(left =~= right);
}

/// Taking an entry out takes it out of the table.
proof fn lemma_remove<M, I>(entries: Seq<ManagedSession<M, I>>, i: int)
    requires
        distinct(entries),
        0 <= i < entries.len(),
    ensures
        distinct(entries.remove(i)),
        table_of(entries.remove(i)) == table_of(entries).remove(entries[i].record.name@),
{
    let after = entries.remove(i);
    let gone = entries[i].record.name@;
    assert(distinct(after));
    let left = table_of(after);
    let right = table_of(entries).remove(gone);
    assert forall|name: Seq<char>| left.dom().contains(name) == right.dom().contains(name) by {
        if left.dom().contains(name) {
            let j = choose|j: int| holds(after, j, name);
            let k = if j < i { j } else { j + 1 };
            assert(after[j] == entries[k]);
            assert(holds(entries, k, name));
        }
        if right.dom().contains(name) {
            let k = choose|k: int| holds(entries, k, name);
            let j = if k < i { k } else { k - 1 };
            assert(after[j] == entries[k]);
            assert(holds(after, j, name));
        }
    }
    assert forall|name: Seq<char>| left.dom().contains(name) implies left[name] == right[name] by {
        let j = choose|j: int| holds(after, j, name);
        let k = if j < i { j } else { j + 1 };
        assert(after[j] == entries[k]);
        lemma_entry(after, j);
        lemma_entry(entries, k);
    }
    assert(left =~= right);
}

/// Where every entry was brought up to date, so was the table.
proof fn lemma_all_refreshed<M, I>(
    first: Seq<ManagedSession<M, I>>,
    after: Seq<ManagedSession<M, I>>,
)
    requires
        distinct(first),
        named(table_of(first)),
        first.len() == after.len(),
        forall|j: int| 0 <= j < first.len() ==> view_refreshed(first[j]@, (#[trigger] after[j])@),
    ensures
        distinct(after),
        named(table_of(after)),
        have_terminals(table_of(first)) ==> have_terminals(table_of(after)),
        some_refresh(table_of(first), table_of(after)),
{
    assert forall|j: int| 0 <= j < first.len() implies first[j].record.name@ == (
    #[trigger] after[j]).record.name@ by {
        assert(view_refreshed(first[j]@, after[j]@));
    }
    assert(distinct(after)) by {
        assert forall|a: int, b: int| 0 <= a < b < after.len() implies (
        #[trigger] after[a]).record.name@ != (#[trigger] after[b]).record.name@ by {
            assert(first[a].record.name@ != first[b].record.name@);
        }
    }
    let old_table = table_of(first);
    let table = table_of(after);
    assert forall|name: Seq<char>| old_table.dom().contains(name) == table.dom().contains(name) by {
        if old_table.dom().contains(name) {
            let j = choose|j: int| holds(first, j, name);
            assert(holds(after, j, name));
        }
        if table.dom().contains(name) {
            let j = choose|j: int| holds(after, j, name);
            assert(holds(first, j, name));
        }
    }
    assert(table.dom() =~= old_table.dom());
    assert forall|name: Seq<char>| #[trigger] old_table.dom().contains(name) implies view_refreshed(
        old_table[name],
        table[name],
    ) by {
        let j = choose|j: int| holds(first, j, name);
        lemma_entry(first, j);
        lemma_entry(after, j);
    }
}

/// A name that comes later in the entries is not yet listed.
proof fn lemma_name_is_new<M, I>(
    list: Seq<SessionRecord>,
    entries: Seq<ManagedSession<M, I>>,
    i: int,
)
    requires
        distinct(entries),
        0 <= i < entries.len(),
        lists(list, entries.take(i)),
    ensures
        forall|k: int|
            0 <= k < list.len() ==> entries[i].record.name@ != (#[trigger] list[k]).name@,
{
    let part = entries.take(i);
    assert forall|k: int| 0 <= k < list.len() implies entries[i].record.name@ != (
    #[trigger] list[k]).name@ by {
        assert(among(part, list[k]@));
        let j = choose|j: int| 0 <= j < part.len() && (#[trigger] part[j]).record@ == list[k]@;
        assert(part[j] == entries[j]);
    }
}

/// Listing the next entry at any place lists one entry more.
proof fn lemma_lists_next<M, I>(
    list: Seq<SessionRecord>,
    at: int,
    record: SessionRecord,
    entries: Seq<ManagedSession<M, I>>,
    i: int,
)
    requires
        0 <= at <= list.len(),
        0 <= i < entries.len(),
        lists(list, entries.take(i)),
        record@ == entries[i].record@,
    ensures
        lists(list.insert(at, record), entries.take(i + 1)),
{
    let part = entries.take(i);
    let more = entries.take(i + 1);
    let after = list.insert(at, record);
    assert forall|k: int| 0 <= k < after.len() implies #[trigger] among(more, after[k]@) by {
        if k == at {
            assert(more[i].record@ == after[k]@);
        } else {
            let old_k = if k < at { k } else { k - 1 };
            assert(after[k] == list[old_k]);
            assert(among(part, list[old_k]@));
            let j = choose|j: int|
                0 <= j < part.len() && (#[trigger] part[j]).record@ == list[old_k]@;
            assert(more[j] == part[j]);
        }
    }
    assert forall|j: int| 0 <= j < more.len() implies #[trigger] listed(after, more[j].record@) by {
        if j == i {
            assert(after[at]@ == more[j].record@);
        } else {
            assert(more[j] == part[j]);
            assert(listed(list, part[j].record@));
            let old_k = choose|k: int|
                0 <= k < list.len() && (#[trigger] list[k])@ == part[j].record@;
            let k = if old_k < at { old_k } else { old_k + 1 };
            assert(after[k] == list[old_k]);
        }
    }
}

/// A list of all entries in order is a listing of the table.
proof fn lemma_listing<M, I>(list: Seq<SessionRecord>, entries: Seq<ManagedSession<M, I>>)
    requires
        distinct(entries),
        in_order(record_views(list)),
        lists(list, entries),
    ensures
        is_listing(table_of(entries), record_views(list)),
{
    let views = record_views(list);
    let table = table_of(entries);
    assert forall|k: int| 0 <= k < views.len() implies table.dom().contains(
        (#[trigger] views[k]).name,
    ) && views[k] == table[views[k].name].record by {
        assert(views[k] == list[k]@);
        assert(among(entries, list[k]@));
        let j = choose|j: int| 0 <= j < entries.len() && (#[trigger] entries[j]).record@ == list[k]@;
        lemma_entry(entries, j);
    }
    assert forall|name: Seq<char>| #[trigger] table.dom().contains(name) implies exists|k: int|
        0 <= k < views.len() && (#[trigger] views[k]).name == name by {
        let j = choose|j: int| holds(entries, j, name);
        assert(listed(list, entries[j].record@));
        let k = choose|k: int| 0 <= k < list.len() && (#[trigger] list[k])@ == entries[j].record@;
        assert(views[k].name == name);
    }
}

/// A record put behind those that it does not stand before, and before the rest,
/// keeps the order.
proof fn lemma_insert_in_order(list: Seq<SessionRecord>, at: int, record: SessionRecord)
    requires
        in_order(record_views(list)),
        0 <= at <= list.len(),
        forall|k: int|
            0 <= k < at ==> !order::text_before(record.name@, (#[trigger] list[k]).name@),
        at < list.len() ==> order::text_before(record.name@, list[at].name@),
        forall|k: int| 0 <= k < list.len() ==> record.name@ != (#[trigger] list[k]).name@,
    ensures
        in_order(record_views(list.insert(at, record))),
{
    let before = record_views(list);
    let after = record_views(list.insert(at, record));
    assert forall|i: int, j: int| 0 <= i < j < after.len() implies order::text_before(
        (#[trigger] after[i]).name,
        (#[trigger] after[j]).name,
    ) by {
        let old_i = if i < at { i } else { i - 1 };
        let old_j = if j < at { j } else { j - 1 };
        if i == at {
            assert(after[j] == before[old_j]);
            assert(list[old_j]@ == before[old_j]);
            if old_j > at {
                assert(list[at]@ == before[at]);
                order::lemma_before_transitive(
                    record.name@,
                    before[at].name,
                    before[old_j].name,
                );
            }
        } else if j == at {
            assert(after[i] == before[old_i]);
            assert(list[old_i].name@ == before[old_i].name);
            order::lemma_before_total(record.name@, list[old_i].name@);
        } else {
            assert(after[i] == before[old_i] && after[j] == before[old_j]);
        }
    }
}

/// Puts a record with a new name into a list, where its name belongs.
fn insert_by_name(list: &mut Vec<SessionRecord>, record: SessionRecord)
    requires
        in_order(record_views(old(list)@)),
        forall|k: int|
            0 <= k < old(list)@.len() ==> record.name@ != (#[trigger] old(list)@[k]).name@,
    ensures
        in_order(record_views(final(list)@)),
        exists|at: int|
            0 <= at <= old(list)@.len() && final(list)@ == #[trigger] old(list)@.insert(at, record),
{
    let mut at: usize = 0;
    while at < list.len() && !is_before(record.name.as_str(), list[at].name.as_str())
        invariant
            at <= list@.len(),
            list@ == old(list)@,
            forall|k: int|
                0 <= k < at ==> !order::text_before(record.name@, (#[trigger] list@[k]).name@),
        decreases list@.len() - at,
    {
        at = at + 1;
    }
    proof {
        lemma_insert_in_order(list@, at as int, record);
    }
    list.insert(at, record);
}

/// When all records are brought up to date, no session comes or goes, and each keeps
/// its terminal, its output and its client. One whose process is never said to be
/// gone runs on.
pub proof fn law_refresh_keeps_the_sessions<M, I>(
    before: Map<Seq<char>, SessionView<M, I>>,
    after: Map<Seq<char>, SessionView<M, I>>,
    name: Seq<char>,
)
    requires
        some_refresh(before, after),
    ensures
        after.dom().contains(name) <==> before.dom().contains(name),
        before.dom().contains(name) ==> {
            &&& after[name].master == before[name].master
            &&& after[name].io == before[name].io
            &&& after[name].attached == before[name].attached
            &&& record::same_session(before[name].record, after[name].record)
            &&& before[name].record.state != SessionState::Running ==> after[name].record
                == before[name].record
            &&& before[name].record.state == SessionState::Running
                && before[name].record.pid is Some && !record::answered(
                before[name].record.pid->0,
                false,
            ) ==> after[name].record == before[name].record
            &&& before[name].record.state == SessionState::Running
                && before[name].record.pid is Some && !record::answered(
                before[name].record.pid->0,
                true,
            ) ==> after[name].record.state == SessionState::Exited
        },
{
}

/// A list of the sessions has as many records as there are sessions, each of them the
/// record of its session, and any two of them stand in the order of their names.
pub proof fn law_list_holds_every_session<M, I>(
    table: Map<Seq<char>, SessionView<M, I>>,
    list: Seq<RecordView>,
    name: Seq<char>,
)
    requires
        is_listing(table, list),
    ensures
        table.dom().contains(name) ==> exists|k: int|
            0 <= k < list.len() && #[trigger] list[k] == table[name].record && list[k].name == name,
        forall|k: int|
            0 <= k < list.len() ==> table.dom().contains(#[trigger] list[k].name) && list[k]
                == table[list[k].name].record,
        forall|i: int, j: int|
            0 <= i < j < list.len() ==> order::text_before(
                (#[trigger] list[i]).name,
                (#[trigger] list[j]).name,
            ) && list[i].name != list[j].name,
{
    if table.dom().contains(name) {
        let k = choose|k: int| 0 <= k < list.len() && (#[trigger] list[k]).name == name;
        assert(list[k] == table[name].record);
    }
    assert forall|i: int, j: int| 0 <= i < j < list.len() implies order::text_before(
        (#[trigger] list[i]).name,
        (#[trigger] list[j]).name,
    ) && list[i].name != list[j].name by {
        order::lemma_before_total(list[i].name, list[i].name);
    }
}

/// A session that was attached to differs in nothing but the time of that.
pub proof fn law_stamp_notes_the_time<M, I>(
    table: Map<Seq<char>, SessionView<M, I>>,
    name: Seq<char>,
    stamp: Seq<char>,
)
    requires
        table.dom().contains(name),
    ensures
        stamped_at(table, name, stamp) == table.insert(
            name,
            SessionView {
                record: RecordView { last_attached_at: Some(stamp), ..table[name].record },
                ..table[name]
            },
        ),
{
}

/// A session that was killed has exited, has neither process nor exit code, has no
/// terminal and no client; its output stays.
pub proof fn law_killed_session_is_retired<M, I>(
    table: Map<Seq<char>, SessionView<M, I>>,
    name: Seq<char>,
)
    requires
        table.dom().contains(name),
    ensures
        retired_at(table, name).dom() =~= table.dom(),
        ({
            let session = retired_at(table, name)[name];
            &&& session.record.state == SessionState::Exited
            &&& session.record.pid is None
            &&& session.record.exit_code is None
            &&& session.record.last_attached_at == table[name].record.last_attached_at
            &&& record::same_session(table[name].record, session.record)
            &&& session.master is None
            &&& !session.attached
            &&& session.io == table[name].io
        }),
{
}

/// A record that is brought up to date by an answer takes nothing else from its
/// session: the session runs on as it is where its process is alive, and has exited
/// where it is gone.
pub proof fn law_answer_decides_in_the_table<M, I>(
    table: Map<Seq<char>, SessionView<M, I>>,
    name: Seq<char>,
    pid: i32,
)
    requires
        table.dom().contains(name),
        table[name].record.state == SessionState::Running,
        table[name].record.pid == Some(pid),
    ensures
        refreshed_at(table, name, true) == table,
        refreshed_at(table, name, false) == table.insert(
            name,
            SessionView {
                record: RecordView {
                    state: SessionState::Exited,
                    pid: None,
                    ..table[name].record
                },
                ..table[name]
            },
        ),
{
    assert(refreshed_at(table, name, true)[name] =~= table[name]);
    assert(refreshed_at(table, name, true) =~= table);
}

impl<M, I> Sessions<M, I> {
    /// Each session stands in the table once.
    pub closed spec fn wf(&self) -> bool {
        distinct(self.entries@)
    }

    /// What holds of the table between any two requests: each session stands in it
    /// once, under its name.
    pub open spec fn inv(&self) -> bool {
        self.wf() && named(self@)
    }

    /// A table without sessions.
    pub fn new() -> (sessions: Self)
        ensures
            sessions.inv(),
            have_terminals(sessions@),
            sessions@ == Map::<Seq<char>, SessionView<M, I>>::empty(),
    {
        let sessions = Sessions { entries: Vec::new() };
        assert(sessions@ =~= Map::<Seq<char>, SessionView<M, I>>::empty());
        sessions
    }

    /// The index of the session `name`.
    fn find(&self, name: &str) -> (found: Option<usize>)
        requires
            self.wf(),
        ensures
            match found {
                Some(i) => {
                    &&& holds(self.entries@, i as int, name@)
                    &&& self@.dom().contains(name@)
                    &&& self@[name@] == self.entries@[i as int]@
                },
                None => {
                    &&& !self@.dom().contains(name@)
                    &&& forall|i: int| !holds(self.entries@, i, name@)
                },
            },
    {
        let mut i: usize = 0;
        while i < self.entries.len()
            invariant
                self.wf(),
                i <= self.entries@.len(),
                forall|k: int| 0 <= k < i ==> !holds(self.entries@, k, name@),
            decreases self.entries@.len() - i,
        {
            if same_text(self.entries[i].record.name.as_str(), name) {
                proof {
                    lemma_entry(self.entries@, i as int);
                }
                return Some(i);
            }
            i = i + 1;
        }
        None
    }

    /// The session `name`.
    pub fn get(&self, name: &str) -> (found: Option<&ManagedSession<M, I>>)
        requires
            self.wf(),
        ensures
            match found {
                Some(session) => self@.dom().contains(name@) && session@ == self@[name@],
                None => !self@.dom().contains(name@),
            },
    {
        match self.find(name) {
            Some(i) => Some(&self.entries[i]),
            None => None,
        }
    }

    /// Puts a session into the table, in place of the one that had its name.
    pub fn insert(&mut self, session: ManagedSession<M, I>)
        requires
            old(self).inv(),
        ensures
            final(self).inv(),
            have_terminals(old(self)@) && has_terminal(session@) ==> have_terminals(final(self)@),
            final(self)@ == old(self)@.insert(session.record.name@, session@),
    {
        match self.find(session.record.name.as_str()) {
            Some(i) => {
                proof {
                    lemma_update(self.entries@, i as int, session);
                }
                self.entries[i] = session;
            },
            None => {
                proof {
                    lemma_push(self.entries@, session);
                }
                self.entries.push(session);
            },
        }
    }

    /// Brings the record of the session `name` up to date, given whether its
    /// process is alive.
    pub fn settle(&mut self, name: &str, alive: bool)
        requires
            old(self).inv(),
        ensures
            final(self).inv(),
            have_terminals(old(self)@) ==> have_terminals(final(self)@),
            final(self)@ == (if old(self)@.dom().contains(name@) {
                refreshed_at(old(self)@, name@, alive)
            } else {
                old(self)@
            }),
    {
        match self.find(name) {
            Some(i) => {
                let ghost before = self.entries@;
                record::settle_record_state(&mut self.entries[i].record, alive);
                proof {
                    lemma_update(before, i as int, self.entries@[i as int]);
                    assert(self.entries@ =~= before.update(i as int, self.entries@[i as int]));
                    assert(self@ =~= refreshed_at(old(self)@, name@, alive));
                }
            },
            None => {},
        }
    }

    /// Notes when the session `name` was attached to.
    pub fn stamp(&mut self, name: &str, stamp: String)
        requires
            old(self).inv(),
        ensures
            final(self).inv(),
            have_terminals(old(self)@) ==> have_terminals(final(self)@),
            final(self)@ == (if old(self)@.dom().contains(name@) {
                stamped_at(old(self)@, name@, stamp@)
            } else {
                old(self)@
            }),
    {
        match self.find(name) {
            Some(i) => {
                let ghost before = self.entries@;
                self.entries[i].record.last_attached_at = Some(stamp);
                proof {
                    lemma_update(before, i as int, self.entries@[i as int]);
                    assert(self.entries@ =~= before.update(i as int, self.entries@[i as int]));
                    assert(self@ =~= stamped_at(old(self)@, name@, stamp@));
                }
            },
            None => {},
        }
    }

    /// Notes whether a client is attached to the session `name`.
    pub fn set_attached(&mut self, name: &str, attached: bool)
        requires
            old(self).inv(),
        ensures
            final(self).inv(),
            have_terminals(old(self)@) ==> have_terminals(final(self)@),
            final(self)@ == (if old(self)@.dom().contains(name@) {
                old(self)@.insert(name@, SessionView { attached, ..old(self)@[name@] })
            } else {
                old(self)@
            }),
    {
        match self.find(name) {
            Some(i) => {
                let ghost before = self.entries@;
                self.entries[i].attached = attached;
                proof {
                    lemma_update(before, i as int, self.entries@[i as int]);
                    assert(self.entries@ =~= before.update(i as int, self.entries@[i as int]));
                }
            },
            None => {},
        }
    }

    /// Notes that the command of the session `name` was ended: the terminal goes,
    /// and nobody is attached to it. Gives the record to keep, where there is such
    /// a session.
    pub fn retire(&mut self, name: &str) -> (kept: Option<SessionRecord>)
        requires
            old(self).inv(),
        ensures
            final(self).inv(),
            have_terminals(old(self)@) ==> have_terminals(final(self)@),
            final(self)@ == (if old(self)@.dom().contains(name@) {
                retired_at(old(self)@, name@)
            } else {
                old(self)@
            }),
            match kept {
                Some(kept) => old(self)@.dom().contains(name@) && kept@ == record::exited(
                    old(self)@[name@].record,
                    None,
                ),
                None => !old(self)@.dom().contains(name@),
            },
    {
        match self.find(name) {
            Some(i) => {
                let ghost before = self.entries@;
                record::mark_exited(&mut self.entries[i].record, None);
                self.entries[i].master = None;
                self.entries[i].attached = false;
                proof {
                    lemma_update(before, i as int, self.entries@[i as int]);
                    assert(self.entries@ =~= before.update(i as int, self.entries@[i as int]));
                    assert(self@ =~= retired_at(old(self)@, name@));
                }
                Some(self.entries[i].record.clone())
            },
            None => None,
        }
    }

    /// Takes the session `name` out of the table.
    pub fn remove(&mut self, name: &str)
        requires
            old(self).inv(),
        ensures
            final(self).inv(),
            have_terminals(old(self)@) ==> have_terminals(final(self)@),
            final(self)@ == old(self)@.remove(name@),
    {
        match self.find(name) {
            Some(i) => {
                proof {
                    lemma_remove(self.entries@, i as int);
                }
                let _ = self.entries.remove(i);
            },
            None => {
                assert(self@ =~= old(self)@.remove(name@));
            },
        }
    }

    /// Brings every record up to date by asking which processes are alive.
    pub fn refresh_all(&mut self)
        requires
            old(self).inv(),
        ensures
            final(self).inv(),
            have_terminals(old(self)@) ==> have_terminals(final(self)@),
            some_refresh(old(self)@, final(self)@),
            forall|name: Seq<char>| #[trigger]
                old(self)@.dom().contains(name) ==> final(self)@.dom().contains(name)
                    && record::brought_up_to_date(
                    old(self)@[name].record,
                    final(self)@[name].record,
                ),
    {
        let ghost first = self.entries@;
        let mut i: usize = 0;
        while i < self.entries.len()
            invariant
                i <= self.entries@.len(),
                self.entries@.len() == first.len(),
                forall|j: int|
                    0 <= j < i ==> view_refreshed(first[j]@, (#[trigger] self.entries@[j])@),
                forall|j: int| i <= j < first.len() ==> #[trigger] self.entries@[j] == first[j],
            decreases self.entries@.len() - i,
        {
            record::refresh_record_state(&mut self.entries[i].record);
            assert(view_refreshed(first[i as int]@, self.entries@[i as int]@));
            i = i + 1;
        }
        proof {
            lemma_all_refreshed(first, self.entries@);
        }
    }

    /// The records of all sessions, in the order of their names.
    pub fn sorted_records(&self) -> (list: Vec<SessionRecord>)
        requires
            self.inv(),
        ensures
            is_listing(self@, record_views(list@)),
    {
        let mut list: Vec<SessionRecord> = Vec::new();
        let mut i: usize = 0;
        while i < self.entries.len()
            invariant
                self.inv(),
                i <= self.entries@.len(),
                in_order(record_views(list@)),
                lists(list@, self.entries@.take(i as int)),
            decreases self.entries@.len() - i,
        {
            let record = self.entries[i].record.clone();
            let ghost before = list@;
            proof {
                lemma_name_is_new(before, self.entries@, i as int);
            }
            insert_by_name(&mut list, record);
            proof {
                let at = choose|at: int|
                    0 <= at <= before.len() && list@ == #[trigger] before.insert(at, record);
                lemma_lists_next(before, at, record, self.entries@, i as int);
            }
            i = i + 1;
        }
        proof {
            assert(self.entries@.take(i as int) =~= self.entries@);
            lemma_listing(list@, self.entries@);
        }
        list
    }
}

} // verus!

//! What the synchronization of an account does, from its first answer to its last.
use vstd::prelude::*;

use crate::entries::{CalendarEntryView, TaskListEntryView};
use crate::error::ErrorView;
use crate::flow::{NextView, ReadingEventsView, ReadingTasksView, ReadingView, SurroundingsView};
use crate::json::JsonView;
use crate::normalize::task_row;
use crate::order::sorted_same_items;
use crate::records::{CalendarRowView, StoredCalendarView, StoredTaskListView, StoredTaskView};
use crate::state::{calendar_rank, own_calendar, progress};
use crate::table::{any, filter_rows, first, first_at};
use crate::tables::{
    foreign_task, foreign_task_list, list_named, named_account, new_task_list, same_item,
    same_task, task_list_at, task_list_steps, task_steps, tasks_of, ListsAndTasks, Tables,
    TasksByList,
};
use crate::time::rfc3339;
use crate::transitions::{ServiceView, Step};

verus! {

/// Events that Google reported, with the token from which to go on; or why there are none.
pub type EventsReply = std::result::Result<(Seq<JsonView>, Seq<char>), ErrorView>;

/// The calendars whose events a step goes on to read, the one that it asks for first.
pub open spec fn calendars_ahead(next: NextView) -> Seq<CalendarRowView> {
    match next {
        NextView::ListEvents { calendar_id, sync_token, run } => run.calendars,
        _ => Seq::empty(),
    }
}

/// Whether a step asks for the events of the first of some calendars, with the others to come.
pub open spec fn asks_for_first(
    next: NextView,
    reading: ReadingView,
    calendars: Seq<CalendarRowView>,
) -> bool {
    next matches NextView::ListEvents { calendar_id, sync_token, run } && {
        &&& calendar_id == calendars[0].calendar_id
        &&& run.reading == reading
        &&& run.calendars == calendars
        &&& run.changes_only == (sync_token is Some)
        &&& run.replace == (sync_token is None)
    }
}

/// Once the calendars of an account are in the cache, the events of the first of them are asked
/// for, and all of them are ahead; the task lists are asked for only where there is no calendar.
pub proof fn reading_begins_with_all_calendars(
    service: ServiceView,
    reading: ReadingView,
    entries: Seq<CalendarEntryView>,
    world: SurroundingsView,
    tables: Tables,
)
    requires
        service.tables.replace_calendars(reading.refresh.account_id, entries) == Ok::<
            Tables,
            ErrorView,
        >(tables),
    ensures
        ({
            let step = service.calendars_listed(reading, Ok(entries), world);
            let ahead = calendars_ahead(step.1.next);
            &&& step.0 == (ServiceView { tables, ..service })
            &&& forall|calendar: StoredCalendarView|
                #[trigger] tables.calendars.contains(calendar) && calendar.account_id
                    == reading.refresh.account_id ==> exists|i: int|
                    0 <= i < ahead.len() && #[trigger] ahead[i] == progress()(calendar)
            &&& forall|i: int|
                0 <= i < ahead.len() ==> exists|k: int|
                    0 <= k < tables.calendars.len() && (
                    #[trigger] tables.calendars[k]).account_id == reading.refresh.account_id
                        && progress()(tables.calendars[k]) == #[trigger] ahead[i]
            &&& if ahead.len() > 0 {
                asks_for_first(step.1.next, reading, ahead)
            } else {
                step.1.next == (NextView::ListTaskLists { run: reading })
            }
        }),
{
    let id = reading.refresh.account_id;
    let own = tables.calendars.filter(own_calendar(id));
    let listed = tables.calendars_of(id);
    let ahead = listed.map_values(progress());
    sorted_same_items(own, own.map_values(calendar_rank()));
    filter_rows(tables.calendars, own_calendar(id));
    let step = service.calendars_listed(reading, Ok(entries), world);
    assert(calendars_ahead(step.1.next) =~= ahead);
    assert forall|calendar: StoredCalendarView|
        #[trigger] tables.calendars.contains(calendar) && calendar.account_id == id implies exists|
        i: int,
    |
        0 <= i < ahead.len() && #[trigger] ahead[i] == progress()(calendar) by {
        assert(own.contains(calendar));
        assert(listed.contains(calendar));
        let i = choose|i: int| 0 <= i < listed.len() && listed[i] == calendar;
        assert(ahead[i] == progress()(calendar));
    }
    assert forall|i: int| 0 <= i < ahead.len() implies exists|k: int|
        0 <= k < tables.calendars.len() && (#[trigger] tables.calendars[k]).account_id == id
            && progress()(tables.calendars[k]) == #[trigger] ahead[i] by {
        assert(listed.contains(listed[i]));
        assert(own.contains(listed[i]));
        assert(tables.calendars.contains(listed[i]));
        let k = choose|k: int| 0 <= k < tables.calendars.len() && tables.calendars[k] == listed[i];
        assert(tables.calendars[k].account_id == id);
    }
}

/// Once the events of a calendar are in the cache, those of the next one are asked for, with the
/// calendars after it in the same order; the task lists are asked for only when no calendar is
/// left.
pub proof fn next_calendar_follows(
    service: ServiceView,
    run: ReadingEventsView,
    events: Seq<JsonView>,
    token: Seq<char>,
    world: SurroundingsView,
    tables: Tables,
)
    requires
        run.calendars.len() > 0,
        service.tables.apply_events(
            run.reading.refresh.account_id,
            run.calendars[0].calendar_id,
            events,
            token,
            run.replace,
            world.now,
        ) == Ok::<Tables, ErrorView>(tables),
    ensures
        ({
            let step = service.events_listed(run, Ok((events, token)), world);
            let rest = run.calendars.subrange(1, run.calendars.len() as int);
            &&& step.0 == (ServiceView { tables, ..service })
            &&& step.1.notices.len() == 0
            &&& if run.calendars.len() > 1 {
                asks_for_first(step.1.next, run.reading, rest)
            } else {
                step.1.next == (NextView::ListTaskLists { run: run.reading })
            }
        }),
{
    assert(run.calendars.drop_first() =~= run.calendars.subrange(1, run.calendars.len() as int));
}

/// Whether steps follow one another while events are read: each but the last asks for the events of
/// a calendar, and the next one is what the service makes of the answer.
pub open spec fn events_read_on(
    steps: Seq<Step>,
    services: Seq<ServiceView>,
    replies: Seq<EventsReply>,
    worlds: Seq<SurroundingsView>,
) -> bool {
    &&& steps.len() == replies.len() + 1
    &&& services.len() == replies.len()
    &&& worlds.len() == replies.len()
    &&& forall|i: int|
        0 <= i < replies.len() ==> (steps[i].1.next matches NextView::ListEvents {
            calendar_id,
            sync_token,
            run,
        } && steps[i + 1] == services[i].events_listed(run, #[trigger] replies[i], worlds[i]))
}

/// Whether the events of a calendar were asked for by one step, came in, and are in the cache after
/// the next: in the place of all that was there where no token went with the question, else as
/// changes.
pub open spec fn calendar_was_read(
    account_id: Seq<char>,
    calendar_id: Seq<char>,
    asking: Step,
    service: ServiceView,
    reply: EventsReply,
    world: SurroundingsView,
    after: Step,
) -> bool {
    &&& reply is Ok
    &&& asking.1.next matches NextView::ListEvents { calendar_id: asked, sync_token, run } && asked
        == calendar_id && service.tables.apply_events(
        account_id,
        calendar_id,
        reply->Ok_0.0,
        reply->Ok_0.1,
        sync_token is None,
        world.now,
    ) == Ok::<Tables, ErrorView>(after.0.tables)
}

/// Whether a step that reads events is sound: it asks for the first of the calendars ahead, and
/// knows whether it asked for changes.
spec fn asks_soundly(next: NextView, reading: ReadingView) -> bool {
    next is ListEvents ==> calendars_ahead(next).len() > 0 && asks_for_first(
        next,
        reading,
        calendars_ahead(next),
    )
}

proof fn reading_goes_on(
    reading: ReadingView,
    steps: Seq<Step>,
    services: Seq<ServiceView>,
    replies: Seq<EventsReply>,
    worlds: Seq<SurroundingsView>,
    at: int,
)
    requires
        events_read_on(steps, services, replies, worlds),
        0 <= at < replies.len(),
        asks_soundly(steps[at].1.next, reading),
    ensures
        asks_soundly(steps[at + 1].1.next, reading),
        ({
            let ahead = calendars_ahead(steps[at].1.next);
            let next = steps[at + 1].1.next;
            next is ListEvents || next is ListTaskLists ==> if replies[at] is Ok {
                &&& calendar_was_read(
                    reading.refresh.account_id,
                    ahead[0].calendar_id,
                    steps[at],
                    services[at],
                    replies[at],
                    worlds[at],
                    steps[at + 1],
                )
                &&& calendars_ahead(next) == ahead.drop_first()
                &&& next is ListTaskLists ==> next == NextView::ListTaskLists { run: reading }
            } else {
                next is ListEvents && calendars_ahead(next) == ahead
            }
        }),
{
    let next = steps[at].1.next;
    let run = next->ListEvents_run;
    assert(steps[at + 1] == services[at].events_listed(run, replies[at], worlds[at]));
    if let Ok((events, token)) = replies[at] {
        if let Ok(tables) = services[at].tables.apply_events(
            reading.refresh.account_id,
            run.calendars[0].calendar_id,
            events,
            token,
            run.replace,
            worlds[at].now,
        ) {
            next_calendar_follows(services[at], run, events, token, worlds[at], tables);
            let rest = run.calendars.subrange(1, run.calendars.len() as int);
            assert(rest =~= run.calendars.drop_first());
            assert(calendars_ahead(steps[at + 1].1.next) =~= rest);
        }
    }
}

proof fn calendar_ahead_is_read(
    reading: ReadingView,
    steps: Seq<Step>,
    services: Seq<ServiceView>,
    replies: Seq<EventsReply>,
    worlds: Seq<SurroundingsView>,
    at: int,
    position: int,
) -> (read_at: int)
    requires
        events_read_on(steps, services, replies, worlds),
        steps.last().1.next is ListTaskLists,
        0 <= at < steps.len(),
        asks_soundly(steps[at].1.next, reading),
        0 <= position < calendars_ahead(steps[at].1.next).len(),
    ensures
        at <= read_at < replies.len(),
        calendar_was_read(
            reading.refresh.account_id,
            calendars_ahead(steps[at].1.next)[position].calendar_id,
            steps[read_at],
            services[read_at],
            replies[read_at],
            worlds[read_at],
            steps[read_at + 1],
        ),
    decreases steps.len() - at,
{
    assert(at < replies.len()) by {
        if at == replies.len() {
            assert(steps[at] == steps.last());
        }
    }
    reading_goes_on(reading, steps, services, replies, worlds, at);
    assert(steps[at + 1].1.next is ListEvents || steps[at + 1].1.next is ListTaskLists) by {
        if at + 1 < replies.len() {
            let later = replies[at + 1];
        } else {
            assert(steps[at + 1] == steps.last());
        }
    }
    let ahead = calendars_ahead(steps[at].1.next);
    if replies[at] is Ok && position == 0 {
        at
    } else if replies[at] is Ok {
        assert(ahead.drop_first()[position - 1] == ahead[position]);
        calendar_ahead_is_read(reading, steps, services, replies, worlds, at + 1, position - 1)
    } else {
        calendar_ahead_is_read(reading, steps, services, replies, worlds, at + 1, position)
    }
}

proof fn reading_stays_sound(
    reading: ReadingView,
    steps: Seq<Step>,
    services: Seq<ServiceView>,
    replies: Seq<EventsReply>,
    worlds: Seq<SurroundingsView>,
    at: int,
)
    requires
        events_read_on(steps, services, replies, worlds),
        asks_soundly(steps[0].1.next, reading),
        0 <= at < steps.len(),
    ensures
        asks_soundly(steps[at].1.next, reading),
    decreases at,
{
    if at > 0 {
        reading_stays_sound(reading, steps, services, replies, worlds, at - 1);
        reading_goes_on(reading, steps, services, replies, worlds, at - 1);
    }
}

/// The task lists of an account are asked for only when the events of every calendar that its list
/// of calendars left in the cache were asked for, came in and were written, whatever answers came
/// before them, and whatever else the service did in between.
pub proof fn every_calendar_is_read(
    service: ServiceView,
    reading: ReadingView,
    entries: Seq<CalendarEntryView>,
    world: SurroundingsView,
    steps: Seq<Step>,
    services: Seq<ServiceView>,
    replies: Seq<EventsReply>,
    worlds: Seq<SurroundingsView>,
    calendar: StoredCalendarView,
)
    requires
        events_read_on(steps, services, replies, worlds),
        steps[0] == service.calendars_listed(reading, Ok(entries), world),
        steps.last().1.next is ListTaskLists,
        steps[0].0.tables.calendars.contains(calendar),
        calendar.account_id == reading.refresh.account_id,
    ensures
        exists|i: int|
            0 <= i < replies.len() && calendar_was_read(
                reading.refresh.account_id,
                calendar.calendar_id,
                steps[i],
                services[i],
                #[trigger] replies[i],
                worlds[i],
                steps[i + 1],
            ),
        steps.last().1.next == (NextView::ListTaskLists { run: reading }),
{
    let id = reading.refresh.account_id;
    assert(steps[0].1.next is ListEvents || steps[0].1.next is ListTaskLists) by {
        if replies.len() > 0 {
            let reply = replies[0];
        } else {
            assert(steps[0] == steps.last());
        }
    }
    let tables = service.tables.replace_calendars(id, entries)->Ok_0;
    assert(service.tables.replace_calendars(id, entries) is Ok);
    reading_begins_with_all_calendars(service, reading, entries, world, tables);
    let ahead = calendars_ahead(steps[0].1.next);
    let position = choose|i: int| 0 <= i < ahead.len() && #[trigger] ahead[i] == progress()(calendar);
    let read_at = calendar_ahead_is_read(reading, steps, services, replies, worlds, 0, position);
    assert(replies[read_at] == replies[read_at]);
    let last = replies.len() - 1;
    reading_stays_sound(reading, steps, services, replies, worlds, last);
    reading_goes_on(reading, steps, services, replies, worlds, last);
}

/// The events of a calendar are asked for from the token that its last synchronization left, unless
/// thirty days or more have passed since all of its events were read: then all of them are asked
/// for again.
pub proof fn reading_goes_on_from_the_token(
    service: ServiceView,
    reading: ReadingView,
    calendars: Seq<CalendarRowView>,
    world: SurroundingsView,
)
    requires
        calendars.len() > 0,
        world.instant.is_representable() && world.instant.nanos < 1000000000,
    ensures
        service.read_events(reading, calendars, world).1.next matches NextView::ListEvents {
            calendar_id,
            sync_token,
            run,
        } && {
            &&& calendar_id == calendars[0].calendar_id
            &&& sync_token is Some ==> sync_token == calendars[0].sync_token
            &&& calendars[0].full_sync_at is None ==> sync_token == calendars[0].sync_token
            &&& calendars[0].full_sync_at matches Some(text) ==> {
                &&& rfc3339(text) is None ==> sync_token == calendars[0].sync_token
                &&& rfc3339(text) matches Some(time) ==> (time.is_representable() && (time.nanos
                    < 1000000000) ==> {
                    let passed = (world.instant.seconds - time.seconds) * 1000000000 + (
                    world.instant.nanos - time.nanos);
                    &&& passed >= 2592000000000000 ==> sync_token is None
                    &&& passed < 2592000000000000 ==> sync_token == calendars[0].sync_token
                })
            }
        },
{
}

/// Whether a list of tasks that Google reported for a task list of an account brings in a row.
pub open spec fn brings_in(
    account_id: Seq<char>,
    task_list_id: Seq<char>,
    reported: Seq<JsonView>,
    row: StoredTaskView,
) -> bool {
    exists|i: int|
        0 <= i < reported.len() && task_row(account_id, task_list_id, #[trigger] reported[i])
            == Some(row)
}

proof fn task_steps_bring_in(
    tasks: Seq<StoredTaskView>,
    account_id: Seq<char>,
    task_list_id: Seq<char>,
    reported: Seq<JsonView>,
    after: Seq<StoredTaskView>,
)
    requires
        task_steps(tasks, account_id, task_list_id, reported) == Ok::<_, ErrorView>(after),
    ensures
        forall|row: StoredTaskView| #[trigger]
            after.contains(row) <==> tasks.contains(row) || brings_in(
                account_id,
                task_list_id,
                reported,
                row,
            ),
    decreases reported.len(),
{
    if reported.len() > 0 {
        let front = reported.drop_last();
        let before = task_steps(tasks, account_id, task_list_id, front)->Ok_0;
        task_steps_bring_in(tasks, account_id, task_list_id, front, before);
        let last = task_row(account_id, task_list_id, reported.last());
        assert forall|row: StoredTaskView| #[trigger]
            after.contains(row) <==> tasks.contains(row) || brings_in(
                account_id,
                task_list_id,
                reported,
                row,
            ) by {
            assert(after.contains(row) <==> before.contains(row) || last == Some(row)) by {
                if let Some(made) = last {
                    assert(after == before.push(made));
                    if after.contains(row) {
                        let k = choose|k: int| 0 <= k < after.len() && after[k] == row;
                        if k < before.len() {
                            assert(before[k] == row);
                        }
                    }
                    if before.contains(row) {
                        let k = choose|k: int| 0 <= k < before.len() && before[k] == row;
                        assert(after[k] == row);
                    }
                    assert(after[before.len() as int] == made);
                }
            }
            if brings_in(account_id, task_list_id, reported, row) {
                let i = choose|i: int|
                    0 <= i < reported.len() && task_row(
                        account_id,
                        task_list_id,
                        #[trigger] reported[i],
                    ) == Some(row);
                if i < front.len() {
                    assert(front[i] == reported[i]);
                    assert(brings_in(account_id, task_list_id, front, row));
                }
            }
            if brings_in(account_id, task_list_id, front, row) {
                let i = choose|i: int|
                    0 <= i < front.len() && task_row(
                        account_id,
                        task_list_id,
                        #[trigger] front[i],
                    ) == Some(row);
                assert(reported[i] == front[i]);
            }
            if last == Some(row) {
                assert(reported[reported.len() - 1] == reported.last());
            }
        }
    }
}

proof fn task_list_steps_bring_in(
    state: ListsAndTasks,
    account_known: bool,
    id: Seq<char>,
    entries: Seq<TaskListEntryView>,
    tasks: TasksByList,
    after: ListsAndTasks,
)
    requires
        task_list_steps(state, account_known, id, entries, tasks) == Ok::<_, ErrorView>(after),
    ensures
        forall|row: StoredTaskView| #[trigger]
            after.1.contains(row) <==> state.1.contains(row) || exists|i: int|
                0 <= i < entries.len() && brings_in(
                    id,
                    (#[trigger] entries[i]).id,
                    tasks_of(tasks, entries[i].id),
                    row,
                ),
        forall|list: StoredTaskListView| #[trigger]
            after.0.contains(list) <==> state.0.contains(list) || exists|i: int|
                0 <= i < entries.len() && new_task_list(id, #[trigger] entries[i]) == list,
        forall|i: int, j: int|
            0 <= i < j < entries.len() ==> (#[trigger] entries[i]).id != (
            #[trigger] entries[j]).id,
    decreases entries.len(),
{
    if entries.len() > 0 {
        let front = entries.drop_last();
        let entry = entries.last();
        let before = task_list_steps(state, account_known, id, front, tasks)->Ok_0;
        task_list_steps_bring_in(state, account_known, id, front, tasks, before);
        let reported = tasks_of(tasks, entry.id);
        task_steps_bring_in(before.1, id, entry.id, reported, after.1);
        let made = new_task_list(id, entry);
        assert(after.0 == before.0.push(made));
        assert(entries[entries.len() - 1] == entry);
        assert forall|row: StoredTaskView| #[trigger]
            after.1.contains(row) <==> state.1.contains(row) || exists|i: int|
                0 <= i < entries.len() && brings_in(
                    id,
                    (#[trigger] entries[i]).id,
                    tasks_of(tasks, entries[i].id),
                    row,
                ) by {
            if exists|i: int|
                0 <= i < front.len() && brings_in(
                    id,
                    (#[trigger] front[i]).id,
                    tasks_of(tasks, front[i].id),
                    row,
                ) {
                let i = choose|i: int|
                    0 <= i < front.len() && brings_in(
                        id,
                        (#[trigger] front[i]).id,
                        tasks_of(tasks, front[i].id),
                        row,
                    );
                assert(entries[i] == front[i]);
            }
            if exists|i: int|
                0 <= i < entries.len() && brings_in(
                    id,
                    (#[trigger] entries[i]).id,
                    tasks_of(tasks, entries[i].id),
                    row,
                ) {
                let i = choose|i: int|
                    0 <= i < entries.len() && brings_in(
                        id,
                        (#[trigger] entries[i]).id,
                        tasks_of(tasks, entries[i].id),
                        row,
                    );
                if i < front.len() {
                    assert(entries[i] == front[i]);
                }
            }
            assert(before.1.contains(row) ==> after.1.contains(row));
        }
        assert forall|list: StoredTaskListView| #[trigger]
            after.0.contains(list) <==> state.0.contains(list) || exists|i: int|
                0 <= i < entries.len() && new_task_list(id, #[trigger] entries[i]) == list by {
            assert(after.0.contains(list) <==> before.0.contains(list) || made == list) by {
                if after.0.contains(list) {
                    let k = choose|k: int| 0 <= k < after.0.len() && after.0[k] == list;
                    if k < before.0.len() {
                        assert(before.0[k] == list);
                    }
                }
                if before.0.contains(list) {
                    let k = choose|k: int| 0 <= k < before.0.len() && before.0[k] == list;
                    assert(after.0[k] == list);
                }
                assert(after.0[before.0.len() as int] == made);
            }
            if exists|i: int|
                0 <= i < front.len() && new_task_list(id, #[trigger] front[i]) == list {
                let i = choose|i: int|
                    0 <= i < front.len() && new_task_list(id, #[trigger] front[i]) == list;
                assert(entries[i] == front[i]);
            }
            if exists|i: int|
                0 <= i < entries.len() && new_task_list(id, #[trigger] entries[i]) == list {
                let i = choose|i: int|
                    0 <= i < entries.len() && new_task_list(id, #[trigger] entries[i]) == list;
                if i < front.len() {
                    assert(entries[i] == front[i]);
                }
            }
        }
        assert forall|i: int, j: int| 0 <= i < j < entries.len() implies (
        #[trigger] entries[i]).id != (#[trigger] entries[j]).id by {
            assert(entries[i] == front[i]);
            if j < front.len() {
                assert(entries[j] == front[j]);
            } else {
                let listed = new_task_list(id, front[i]);
                assert(before.0.contains(listed));
                let k = choose|k: int| 0 <= k < before.0.len() && before.0[k] == listed;
                assert(!task_list_at(id, entry.id)(before.0[k]));
            }
        }
    }
}

/// After the task lists of an account were taken in, the tasks of the account in the cache are
/// exactly those that were reported for its lists, each under its own list, and its lists are
/// exactly those that were reported, none of them twice.
pub proof fn tasks_are_those_reported(
    tables: Tables,
    id: Seq<char>,
    entries: Seq<TaskListEntryView>,
    tasks: TasksByList,
    after: Tables,
)
    requires
        tables.replace_tasks(id, entries, tasks) == Ok::<_, ErrorView>(after),
    ensures
        forall|row: StoredTaskView| #[trigger]
            after.tasks.contains(row) && row.account_id == id <==> exists|i: int|
                0 <= i < entries.len() && brings_in(
                    id,
                    (#[trigger] entries[i]).id,
                    tasks_of(tasks, entries[i].id),
                    row,
                ),
        forall|list: StoredTaskListView| #[trigger]
            after.task_lists.contains(list) && list.account_id == id <==> exists|i: int|
                0 <= i < entries.len() && list == (StoredTaskListView {
                    account_id: id,
                    task_list_id: (#[trigger] entries[i]).id,
                    label: entries[i].label,
                    updated: entries[i].updated,
                }),
        forall|i: int, j: int|
            0 <= i < j < entries.len() ==> (#[trigger] entries[i]).id != (
            #[trigger] entries[j]).id,
        forall|row: StoredTaskView| #[trigger]
            after.tasks.contains(row) && row.account_id != id <==> tables.tasks.contains(row)
                && row.account_id != id,
{
    let lists = tables.task_lists.filter(foreign_task_list(id));
    let stored = tables.tasks.filter(foreign_task(id));
    filter_rows(tables.task_lists, foreign_task_list(id));
    filter_rows(tables.tasks, foreign_task(id));
    task_list_steps_bring_in(
        (lists, stored),
        tables.has_account(id),
        id,
        entries,
        tasks,
        (after.task_lists, after.tasks),
    );
    let state = (lists, stored);
    assert(state.0 == lists && state.1 == stored);
    let end = (after.task_lists, after.tasks);
    assert(end.0 == after.task_lists && end.1 == after.tasks);
    assert forall|row: StoredTaskView| #[trigger]
        after.tasks.contains(row) && row.account_id == id <==> exists|i: int|
            0 <= i < entries.len() && brings_in(
                id,
                (#[trigger] entries[i]).id,
                tasks_of(tasks, entries[i].id),
                row,
            ) by {
        assert(end.1.contains(row) == after.tasks.contains(row));
    }
    assert forall|list: StoredTaskListView| #[trigger]
        after.task_lists.contains(list) && list.account_id == id <==> exists|i: int|
            0 <= i < entries.len() && list == (StoredTaskListView {
                account_id: id,
                task_list_id: (#[trigger] entries[i]).id,
                label: entries[i].label,
                updated: entries[i].updated,
            }) by {
        assert(end.0.contains(list) == after.task_lists.contains(list));
    }
    assert forall|row: StoredTaskView| #[trigger]
        after.tasks.contains(row) && row.account_id != id <==> tables.tasks.contains(row)
            && row.account_id != id by {
        assert(end.1.contains(row) == after.tasks.contains(row));
        assert(stored.contains(row) <==> tables.tasks.contains(row) && foreign_task(id)(row));
    }
}

/// Whether steps follow one another while tasks are read: each but the last asks for the tasks of a
/// list, and the next one is what the service makes of those that came in.
pub open spec fn tasks_read_on(
    steps: Seq<Step>,
    services: Seq<ServiceView>,
    replies: Seq<Seq<JsonView>>,
    worlds: Seq<SurroundingsView>,
) -> bool {
    &&& steps.len() == replies.len() + 1
    &&& services.len() == replies.len()
    &&& worlds.len() == replies.len()
    &&& forall|i: int|
        0 <= i < replies.len() ==> (steps[i].1.next matches NextView::ListTasks {
            task_list_id,
            run,
        } && steps[i + 1] == services[i].tasks_listed(run, Ok(#[trigger] replies[i]), worlds[i]))
}

/// The tasks of the first lists, as they were collected.
spec fn collected(
    lists: Seq<TaskListEntryView>,
    replies: Seq<Seq<JsonView>>,
    count: int,
) -> TasksByList {
    Seq::new(
        count as nat,
        |i: int| (lists[count - 1 - i].id, replies[count - 1 - i]),
    )
}

/// The service to which the answer before a step came in, or the one that the steps began with.
spec fn service_before(service: ServiceView, services: Seq<ServiceView>, at: int) -> ServiceView {
    if at == 0 {
        service
    } else {
        services[at - 1]
    }
}

proof fn tasks_are_collected(
    service: ServiceView,
    reading: ReadingView,
    lists: Seq<TaskListEntryView>,
    world: SurroundingsView,
    steps: Seq<Step>,
    services: Seq<ServiceView>,
    replies: Seq<Seq<JsonView>>,
    worlds: Seq<SurroundingsView>,
    at: int,
)
    requires
        tasks_read_on(steps, services, replies, worlds),
        steps[0] == service.task_lists_listed(reading, Ok(lists), world),
        0 <= at < steps.len(),
    ensures
        at <= lists.len(),
        exists|now: SurroundingsView|
            steps[at] == #[trigger] service_before(service, services, at).read_tasks(
                reading,
                lists,
                at,
                collected(lists, replies, at),
                now,
            ),
        at < replies.len() ==> steps[at].1.next == (NextView::ListTasks {
            task_list_id: lists[at].id,
            run: ReadingTasksView {
                reading,
                lists,
                position: at,
                tasks: collected(lists, replies, at),
            },
        }),
    decreases at,
{
    if at == 0 {
        assert(collected(lists, replies, 0) =~= Seq::empty());
        assert(steps[0] == service_before(service, services, 0).read_tasks(
            reading,
            lists,
            0,
            collected(lists, replies, 0),
            world,
        ));
    } else {
        tasks_are_collected(
            service,
            reading,
            lists,
            world,
            steps,
            services,
            replies,
            worlds,
            at - 1,
        );
        let reply = replies[at - 1];
        assert(collected(lists, replies, at) =~= seq![(lists[at - 1].id, reply)] + collected(
            lists,
            replies,
            at - 1,
        ));
        assert(steps[at] == service_before(service, services, at).read_tasks(
            reading,
            lists,
            at,
            collected(lists, replies, at),
            worlds[at - 1],
        ));
    }
    if at < replies.len() {
        let reply = replies[at];
        assert(steps[at].1.next is ListTasks);
    }
}

/// Whether the last synchronization of an account is noted as one that ended well.
pub open spec fn ended_well(tables: Tables, id: Seq<char>) -> bool {
    &&& exists|i: int|
        0 <= i < tables.accounts.len() && (#[trigger] tables.accounts[i]).row.account_id == id
    &&& forall|i: int|
        0 <= i < tables.accounts.len() && (#[trigger] tables.accounts[i]).row.account_id == id
            ==> tables.accounts[i].row.error is None
}

/// When the task lists of an account came in, the tasks of each of them are asked for, one list
/// after the other; and where the synchronization then ends well, the tasks of the account in the
/// cache are exactly those that came in, each under its own list: none of the earlier lists is lost.
pub proof fn every_task_list_is_read(
    service: ServiceView,
    reading: ReadingView,
    lists: Seq<TaskListEntryView>,
    world: SurroundingsView,
    steps: Seq<Step>,
    services: Seq<ServiceView>,
    replies: Seq<Seq<JsonView>>,
    worlds: Seq<SurroundingsView>,
)
    requires
        tasks_read_on(steps, services, replies, worlds),
        steps[0] == service.task_lists_listed(reading, Ok(lists), world),
        !(steps.last().1.next is ListTasks),
    ensures
        replies.len() == lists.len(),
        forall|i: int|
            0 <= i < lists.len() ==> (steps[i].1.next matches NextView::ListTasks {
                task_list_id,
                run,
            } && task_list_id == (#[trigger] lists[i]).id),
        ended_well(steps.last().0.tables, reading.refresh.account_id) ==> {
            let id = reading.refresh.account_id;
            let after = steps.last().0.tables;
            &&& forall|row: StoredTaskView| #[trigger]
                after.tasks.contains(row) && row.account_id == id <==> exists|i: int|
                    0 <= i < lists.len() && brings_in(
                        id,
                        (#[trigger] lists[i]).id,
                        replies[i],
                        row,
                    )
            &&& forall|list: StoredTaskListView| #[trigger]
                after.task_lists.contains(list) && list.account_id == id <==> exists|i: int|
                    0 <= i < lists.len() && list == (StoredTaskListView {
                        account_id: id,
                        task_list_id: (#[trigger] lists[i]).id,
                        label: lists[i].label,
                        updated: lists[i].updated,
                    })
        },
{
    let id = reading.refresh.account_id;
    let n = replies.len() as int;
    tasks_are_collected(service, reading, lists, world, steps, services, replies, worlds, n);
    let before = service_before(service, services, n);
    let all = collected(lists, replies, n);
    let now = choose|now: SurroundingsView|
        steps[n] == #[trigger] before.read_tasks(reading, lists, n, all, now);
    assert(steps[n] == steps.last());
    assert(n == lists.len());
    assert forall|i: int| 0 <= i < lists.len() implies (steps[i].1.next matches NextView::ListTasks {
        task_list_id,
        run,
    } && task_list_id == (#[trigger] lists[i]).id) by {
        tasks_are_collected(service, reading, lists, world, steps, services, replies, worlds, i);
    }
    let after = steps.last().0.tables;
    if ended_well(after, id) {
        let written = before.tables.replace_tasks(id, lists, all);
        assert(written is Ok) by {
            if let Err(error) = written {
                let i = choose|i: int|
                    0 <= i < after.accounts.len() && (#[trigger] after.accounts[i]).row.account_id
                        == id;
                assert(after.accounts[i].row.error is None);
                assert(before.tables.accounts[i].row.account_id == id);
                assert(after.accounts[i].row.error is Some);
            }
        }
        let tables = written->Ok_0;
        assert(after.tasks == tables.tasks && after.task_lists == tables.task_lists);
        tasks_are_those_reported(before.tables, id, lists, all, tables);
        assert forall|i: int| 0 <= i < lists.len() implies tasks_of(all, (#[trigger] lists[i]).id)
            == replies[i] by {
            let at = n - 1 - i;
            assert forall|j: int| 0 <= j < at implies !list_named(lists[i].id)(
                #[trigger] all[j],
            ) by {
                assert(lists[n - 1 - j].id != lists[i].id);
            }
            assert(all[at] == (lists[i].id, replies[i]));
            first_at(all, list_named(lists[i].id), at);
        }
        assert forall|row: StoredTaskView| #[trigger]
            after.tasks.contains(row) && row.account_id == id <==> exists|i: int|
                0 <= i < lists.len() && brings_in(
                    id,
                    (#[trigger] lists[i]).id,
                    replies[i],
                    row,
                ) by {
            if exists|i: int|
                0 <= i < lists.len() && brings_in(id, (#[trigger] lists[i]).id, replies[i], row) {
                let i = choose|i: int|
                    0 <= i < lists.len() && brings_in(
                        id,
                        (#[trigger] lists[i]).id,
                        replies[i],
                        row,
                    );
                assert(tasks_of(all, lists[i].id) == replies[i]);
                assert(brings_in(id, lists[i].id, tasks_of(all, lists[i].id), row));
            }
            if after.tasks.contains(row) && row.account_id == id {
                assert(tables.tasks.contains(row));
                let i = choose|i: int|
                    0 <= i < lists.len() && brings_in(
                        id,
                        (#[trigger] lists[i]).id,
                        tasks_of(all, lists[i].id),
                        row,
                    );
                assert(tasks_of(all, lists[i].id) == replies[i]);
            }
        }
        assert forall|list: StoredTaskListView| #[trigger]
            after.task_lists.contains(list) && list.account_id == id <==> exists|i: int|
                0 <= i < lists.len() && list == (StoredTaskListView {
                    account_id: id,
                    task_list_id: (#[trigger] lists[i]).id,
                    label: lists[i].label,
                    updated: lists[i].updated,
                }) by {
            assert(after.task_lists.contains(list) == tables.task_lists.contains(list));
        }
    }
}

/// Whether a task can stand beside the row of a report: they are neither the same task, nor would
/// they show as the same agenda item.
pub open spec fn is_apart(task: StoredTaskView, reported: Option<StoredTaskView>) -> bool {
    reported matches Some(row) ==> task.item_id != row.item_id && (task.account_id != row.account_id
        || task.task_list_id != row.task_list_id || task.task_id != row.task_id)
}

/// Whether the rows of two reports can stand beside each other.
pub open spec fn are_apart(left: Option<StoredTaskView>, right: Option<StoredTaskView>) -> bool {
    left matches Some(row) ==> is_apart(row, right)
}

/// The row of a task that Google reports for one of its lists.
pub open spec fn row_reported(
    id: Seq<char>,
    entries: Seq<TaskListEntryView>,
    tasks: TasksByList,
    list: int,
    at: int,
) -> Option<StoredTaskView> {
    task_row(id, entries[list].id, tasks_of(tasks, entries[list].id)[at])
}

/// Whether there is a task at a place of what Google reports.
pub open spec fn is_reported(
    entries: Seq<TaskListEntryView>,
    tasks: TasksByList,
    list: int,
    at: int,
) -> bool {
    0 <= list < entries.len() && 0 <= at < tasks_of(tasks, entries[list].id).len()
}

proof fn task_steps_succeed(
    stored: Seq<StoredTaskView>,
    account_id: Seq<char>,
    task_list_id: Seq<char>,
    reported: Seq<JsonView>,
)
    requires
        forall|i: int, j: int|
            0 <= i < stored.len() && 0 <= j < reported.len() ==> is_apart(
                #[trigger] stored[i],
                task_row(account_id, task_list_id, #[trigger] reported[j]),
            ),
        forall|i: int, j: int|
            0 <= i < j < reported.len() ==> are_apart(
                task_row(account_id, task_list_id, #[trigger] reported[i]),
                task_row(account_id, task_list_id, #[trigger] reported[j]),
            ),
    ensures
        task_steps(stored, account_id, task_list_id, reported) is Ok,
    decreases reported.len(),
{
    if reported.len() > 0 {
        let front = reported.drop_last();
        let n = reported.len() - 1;
        assert(forall|i: int| 0 <= i < front.len() ==> front[i] == #[trigger] reported[i]);
        assert(reported[n] == reported.last());
        task_steps_succeed(stored, account_id, task_list_id, front);
        let before = task_steps(stored, account_id, task_list_id, front)->Ok_0;
        task_steps_bring_in(stored, account_id, task_list_id, front, before);
        if let Some(made) = task_row(account_id, task_list_id, reported.last()) {
            assert forall|k: int| 0 <= k < before.len() implies is_apart(
                #[trigger] before[k],
                Some(made),
            ) by {
                assert(before.contains(before[k]));
                if stored.contains(before[k]) {
                    let i = choose|i: int| 0 <= i < stored.len() && stored[i] == before[k];
                    assert(is_apart(
                        stored[i],
                        task_row(account_id, task_list_id, reported[n]),
                    ));
                } else {
                    assert(brings_in(account_id, task_list_id, front, before[k]));
                    let i = choose|i: int|
                        0 <= i < front.len() && task_row(
                            account_id,
                            task_list_id,
                            #[trigger] front[i],
                        ) == Some(before[k]);
                    assert(front[i] == reported[i]);
                    assert(are_apart(
                        task_row(account_id, task_list_id, reported[i]),
                        task_row(account_id, task_list_id, reported[n]),
                    ));
                }
            }
            assert(!any(before, same_task(made)));
            assert(!any(before, same_item(made)));
        }
    }
}

proof fn task_list_steps_succeed(
    state: ListsAndTasks,
    id: Seq<char>,
    entries: Seq<TaskListEntryView>,
    tasks: TasksByList,
)
    requires
        forall|i: int, j: int|
            0 <= i < j < entries.len() ==> (#[trigger] entries[i]).id != (
            #[trigger] entries[j]).id,
        forall|k: int| 0 <= k < state.0.len() ==> (#[trigger] state.0[k]).account_id != id,
        forall|k: int, i: int, j: int|
            0 <= k < state.1.len() && is_reported(entries, tasks, i, j) ==> is_apart(
                #[trigger] state.1[k],
                #[trigger] row_reported(id, entries, tasks, i, j),
            ),
        forall|i: int, j: int, k: int, l: int|
            is_reported(entries, tasks, i, j) && is_reported(entries, tasks, k, l) && (i < k || (i
                == k && j < l)) ==> are_apart(
                #[trigger] row_reported(id, entries, tasks, i, j),
                #[trigger] row_reported(id, entries, tasks, k, l),
            ),
    ensures
        task_list_steps(state, true, id, entries, tasks) is Ok,
    decreases entries.len(),
{
    if entries.len() > 0 {
        let front = entries.drop_last();
        let n = entries.len() - 1;
        let entry = entries.last();
        assert(entries[n] == entry);
        assert(forall|i: int| 0 <= i < front.len() ==> front[i] == #[trigger] entries[i]);
        assert forall|i: int, j: int| 0 <= i < j < front.len() implies (#[trigger] front[i]).id != (
        #[trigger] front[j]).id by {
            assert(front[i] == entries[i] && front[j] == entries[j]);
        }
        assert forall|i: int, j: int| is_reported(front, tasks, i, j) implies is_reported(
            entries,
            tasks,
            i,
            j,
        ) && #[trigger] row_reported(id, front, tasks, i, j) == row_reported(
            id,
            entries,
            tasks,
            i,
            j,
        ) by {
            assert(front[i] == entries[i]);
        }
        assert forall|k: int, i: int, j: int|
            0 <= k < state.1.len() && is_reported(front, tasks, i, j) implies is_apart(
            #[trigger] state.1[k],
            #[trigger] row_reported(id, front, tasks, i, j),
        ) by {
            assert(is_apart(state.1[k], row_reported(id, entries, tasks, i, j)));
        }
        assert forall|i: int, j: int, k: int, l: int|
            is_reported(front, tasks, i, j) && is_reported(front, tasks, k, l) && (i < k || (i == k
                && j < l)) implies are_apart(
            #[trigger] row_reported(id, front, tasks, i, j),
            #[trigger] row_reported(id, front, tasks, k, l),
        ) by {
            assert(are_apart(
                row_reported(id, entries, tasks, i, j),
                row_reported(id, entries, tasks, k, l),
            ));
        }
        task_list_steps_succeed(state, id, front, tasks);
        let before = task_list_steps(state, true, id, front, tasks)->Ok_0;
        task_list_steps_bring_in(state, true, id, front, tasks, before);
        assert forall|k: int| 0 <= k < before.0.len() implies !task_list_at(id, entry.id)(
            #[trigger] before.0[k],
        ) by {
            assert(before.0.contains(before.0[k]));
            if state.0.contains(before.0[k]) {
                let i = choose|i: int| 0 <= i < state.0.len() && state.0[i] == before.0[k];
                assert(state.0[i].account_id != id);
            } else {
                let i = choose|i: int|
                    0 <= i < front.len() && new_task_list(id, #[trigger] front[i]) == before.0[k];
                assert(entries[i].id != entries[n].id);
            }
        }
        assert(!any(before.0, task_list_at(id, entry.id)));
        let reported = tasks_of(tasks, entry.id);
        assert forall|k: int, j: int| 0 <= k < before.1.len() && 0 <= j < reported.len() implies is_apart(
            #[trigger] before.1[k],
            task_row(id, entry.id, #[trigger] reported[j]),
        ) by {
            let row = before.1[k];
            assert(is_reported(entries, tasks, n, j));
            assert(row_reported(id, entries, tasks, n, j) == task_row(id, entry.id, reported[j]));
            assert(before.1.contains(row));
            if state.1.contains(row) {
                let i = choose|i: int| 0 <= i < state.1.len() && state.1[i] == row;
                assert(is_apart(state.1[i], row_reported(id, entries, tasks, n, j)));
            } else {
                let i = choose|i: int|
                    0 <= i < front.len() && brings_in(
                        id,
                        (#[trigger] front[i]).id,
                        tasks_of(tasks, front[i].id),
                        row,
                    );
                let earlier = tasks_of(tasks, front[i].id);
                let l = choose|l: int|
                    0 <= l < earlier.len() && task_row(id, front[i].id, #[trigger] earlier[l])
                        == Some(row);
                assert(front[i] == entries[i]);
                assert(is_reported(entries, tasks, i, l));
                assert(row_reported(id, entries, tasks, i, l) == Some(row));
                assert(are_apart(
                    row_reported(id, entries, tasks, i, l),
                    row_reported(id, entries, tasks, n, j),
                ));
            }
        }
        assert forall|i: int, j: int| 0 <= i < j < reported.len() implies are_apart(
            task_row(id, entry.id, #[trigger] reported[i]),
            task_row(id, entry.id, #[trigger] reported[j]),
        ) by {
            assert(is_reported(entries, tasks, n, i) && is_reported(entries, tasks, n, j));
            assert(are_apart(
                row_reported(id, entries, tasks, n, i),
                row_reported(id, entries, tasks, n, j),
            ));
        }
        task_steps_succeed(before.1, id, entry.id, reported);
    }
}

/// The task lists that Google reports for an account in the cache are taken in with their tasks,
/// unless a list or a task is reported twice, or two different tasks would show as the same agenda
/// item.
pub proof fn reported_tasks_are_taken_in(
    tables: Tables,
    id: Seq<char>,
    entries: Seq<TaskListEntryView>,
    tasks: TasksByList,
    account_at: int,
)
    requires
        0 <= account_at < tables.accounts.len(),
        tables.accounts[account_at].row.account_id == id,
        forall|i: int, j: int|
            0 <= i < j < entries.len() ==> (#[trigger] entries[i]).id != (
            #[trigger] entries[j]).id,
        forall|k: int, i: int, j: int|
            0 <= k < tables.tasks.len() && tables.tasks[k].account_id != id && is_reported(
                entries,
                tasks,
                i,
                j,
            ) ==> is_apart(
                #[trigger] tables.tasks[k],
                #[trigger] row_reported(id, entries, tasks, i, j),
            ),
        forall|i: int, j: int, k: int, l: int|
            is_reported(entries, tasks, i, j) && is_reported(entries, tasks, k, l) && (i < k || (i
                == k && j < l)) ==> are_apart(
                #[trigger] row_reported(id, entries, tasks, i, j),
                #[trigger] row_reported(id, entries, tasks, k, l),
            ),
    ensures
        tables.replace_tasks(id, entries, tasks) is Ok,
{
    let lists = tables.task_lists.filter(foreign_task_list(id));
    let stored = tables.tasks.filter(foreign_task(id));
    filter_rows(tables.task_lists, foreign_task_list(id));
    filter_rows(tables.tasks, foreign_task(id));
    let state = (lists, stored);
    assert forall|k: int| 0 <= k < state.0.len() implies (#[trigger] state.0[k]).account_id
        != id by {
        assert(lists.contains(lists[k]));
    }
    assert forall|k: int, i: int, j: int|
        0 <= k < state.1.len() && is_reported(entries, tasks, i, j) implies is_apart(
        #[trigger] state.1[k],
        #[trigger] row_reported(id, entries, tasks, i, j),
    ) by {
        assert(stored.contains(stored[k]));
        assert(tables.tasks.contains(stored[k]));
        let m = choose|m: int| 0 <= m < tables.tasks.len() && tables.tasks[m] == stored[k];
        assert(tables.tasks[m].account_id != id);
        assert(is_apart(tables.tasks[m], row_reported(id, entries, tasks, i, j)));
    }
    assert(named_account(id)(tables.accounts[account_at]));
    task_list_steps_succeed(state, id, entries, tasks);
}

} // verus!

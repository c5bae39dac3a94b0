//! Properties of the store that relate several operations or hold of every
//! input, stated over the models the operations' contracts use.
use vstd::prelude::*;

use crate::database::{
    active_at, activity_count, ids_unique, is_seed, keys_unique, relates, seeds_event,
    target_of, seeds_from_victim, RelationType, event_of, event_pos, has_event, has_key, history_rows, in_window, insert_all, insert_event_row,
    insert_or_ignore, kept_events, kept_parts, killmail_rows, lemma_event_pos, lemma_event_pos_unique,
    lemma_kept_events, lemma_kept_parts, lemma_removed_ids, raw_history, removed_ids, row_survives,
    same_key, store_wf, subject_field, attacker_row, EventView, ParticipantRow, QuerySubject,
};
use crate::killmail::{Attackers, Killmail};
use crate::timestamp::{hour_of, lemma_text_le_refl, text_le};

verus! {

/// Inserting more rows never loses a key.
proof fn lemma_insert_all_monotone(ps: Seq<ParticipantRow>, xs: Seq<ParticipantRow>, x: ParticipantRow)
    requires
        has_key(ps, x),
    ensures
        has_key(insert_all(ps, xs), x),
    decreases xs.len(),
{
    if xs.len() > 0 {
        let q = insert_all(ps, xs.drop_last());
        lemma_insert_all_monotone(ps, xs.drop_last(), x);
        let i = choose|i: int| 0 <= i < q.len() && same_key(q[i], x);
        assert(insert_or_ignore(q, xs.last())[i] == q[i]);
    }
}

/// After inserting rows, the key of each of them is present.
proof fn lemma_insert_all_holds(ps: Seq<ParticipantRow>, xs: Seq<ParticipantRow>)
    ensures
        forall|i: int| 0 <= i < xs.len() ==> has_key(insert_all(ps, xs), #[trigger] xs[i]),
    decreases xs.len(),
{
    if xs.len() > 0 {
        let d = xs.drop_last();
        let q = insert_all(ps, d);
        lemma_insert_all_holds(ps, d);
        let r = insert_all(ps, xs);
        assert forall|i: int| 0 <= i < xs.len() implies has_key(r, #[trigger] xs[i]) by {
            if i < xs.len() - 1 {
                assert(d[i] == xs[i]);
                let t = choose|t: int| 0 <= t < q.len() && same_key(q[t], d[i]);
                assert(r[t] == q[t]);
            } else if !has_key(q, xs.last()) {
                assert(r[r.len() - 1] == xs.last());
            }
        }
    }
}

/// Inserting rows whose keys are all present changes nothing.
proof fn lemma_insert_all_present(qs: Seq<ParticipantRow>, xs: Seq<ParticipantRow>)
    requires
        forall|i: int| 0 <= i < xs.len() ==> has_key(qs, #[trigger] xs[i]),
    ensures
        insert_all(qs, xs) == qs,
    decreases xs.len(),
{
    if xs.len() > 0 {
        let d = xs.drop_last();
        assert forall|i: int| 0 <= i < d.len() implies has_key(qs, #[trigger] d[i]) by {
            assert(d[i] == xs[i]);
        }
        lemma_insert_all_present(qs, d);
        assert(has_key(qs, xs[xs.len() - 1]));
    }
}

/// Inserting `xs + ys` is inserting `xs`, then `ys`.
proof fn lemma_insert_all_split(ps: Seq<ParticipantRow>, xs: Seq<ParticipantRow>, ys: Seq<ParticipantRow>)
    ensures
        insert_all(ps, xs + ys) == insert_all(insert_all(ps, xs), ys),
    decreases ys.len(),
{
    if ys.len() == 0 {
        assert(xs + ys =~= xs);
    } else {
        lemma_insert_all_split(ps, xs, ys.drop_last());
        assert((xs + ys).drop_last() =~= xs + ys.drop_last());
        assert((xs + ys).last() == ys.last());
    }
}

/// Idempotent insert: inserting a killmail a second time changes neither the
/// events nor the participants, so the row counts after one insertion and
/// after any number of identical insertions are the same.
pub proof fn lemma_insert_idempotent(es: Seq<EventView>, ps: Seq<ParticipantRow>, k: Killmail)
    ensures
        insert_event_row(insert_event_row(es, event_of(k)), event_of(k)) == insert_event_row(
            es,
            event_of(k),
        ),
        insert_all(insert_all(ps, killmail_rows(k)), killmail_rows(k)) == insert_all(
            ps,
            killmail_rows(k),
        ),
{
    let e1 = insert_event_row(es, event_of(k));
    if !has_event(es, k.killmail_id) {
        assert(e1[e1.len() - 1].killmail_id == k.killmail_id);
    }
    assert(has_event(e1, k.killmail_id));
    lemma_insert_all_holds(ps, killmail_rows(k));
    lemma_insert_all_present(insert_all(ps, killmail_rows(k)), killmail_rows(k));
}

/// Partial update: re-inserting a stored killmail with one more attacker,
/// whose key is not stored yet, leaves the event row and every earlier row
/// as they were and adds exactly that attacker's row.
pub proof fn lemma_insert_new_attacker(
    es: Seq<EventView>,
    ps: Seq<ParticipantRow>,
    k: Killmail,
    update: Killmail,
    a: Attackers,
    pos: int,
)
    requires
        update.killmail_id == k.killmail_id,
        update.victim == k.victim,
        0 <= pos <= k.attackers@.len(),
        update.attackers@ == k.attackers@.insert(pos, a),
        !has_key(insert_all(ps, killmail_rows(k)), attacker_row(k.killmail_id, a)),
    ensures
        insert_event_row(insert_event_row(es, event_of(k)), event_of(update)) == insert_event_row(
            es,
            event_of(k),
        ),
        insert_all(insert_all(ps, killmail_rows(k)), killmail_rows(update)) == insert_all(
            ps,
            killmail_rows(k),
        ).push(attacker_row(k.killmail_id, a)),
{
    let e1 = insert_event_row(es, event_of(k));
    if !has_event(es, k.killmail_id) {
        assert(e1[e1.len() - 1].killmail_id == k.killmail_id);
    }
    assert(has_event(e1, update.killmail_id));
    let rows = killmail_rows(k);
    let q = insert_all(ps, rows);
    let row = attacker_row(k.killmail_id, a);
    let pre = rows.take(pos + 1);
    let post = rows.skip(pos + 1);
    assert(killmail_rows(update) =~= pre + seq![row] + post);
    lemma_insert_all_holds(ps, rows);
    assert forall|i: int| 0 <= i < pre.len() implies has_key(q, #[trigger] pre[i]) by {
        assert(pre[i] == rows[i]);
    }
    lemma_insert_all_present(q, pre);
    lemma_insert_all_split(q, pre + seq![row], post);
    lemma_insert_all_split(q, pre, seq![row]);
    assert(seq![row].drop_last() =~= Seq::<ParticipantRow>::empty());
    assert(insert_all(q, seq![row]) == insert_or_ignore(insert_all(q, Seq::empty()), row));
    let q2 = q.push(row);
    assert forall|i: int| 0 <= i < post.len() implies has_key(q2, #[trigger] post[i]) by {
        assert(post[i] == rows[i + pos + 1]);
        let t = choose|t: int| 0 <= t < q.len() && same_key(q[t], rows[i + pos + 1]);
        assert(q2[t] == q[t]);
    }
    lemma_insert_all_present(q2, post);
}

/// Every history row comes from a participant of the subject in the window,
/// and every such participant gives its row.
pub proof fn lemma_history_rows(
    es: Seq<EventView>,
    ps: Seq<ParticipantRow>,
    id: i32,
    sbj: QuerySubject,
    since: Seq<char>,
)
    ensures
        forall|u: int|
            0 <= u < history_rows(es, ps, id, sbj, since).len() ==> exists|j: int|
                0 <= j < ps.len() && subject_field(ps[j], sbj) == Some(id) && in_window(
                    es,
                    ps[j].killmail_id,
                    since,
                ) && #[trigger] history_rows(es, ps, id, sbj, since)[u] == raw_history(
                    ps[j],
                    es[event_pos(es, ps[j].killmail_id)],
                ),
        forall|j: int|
            0 <= j < ps.len() && subject_field(ps[j], sbj) == Some(id) && in_window(
                es,
                ps[j].killmail_id,
                since,
            ) ==> history_rows(es, ps, id, sbj, since).contains(
                raw_history(#[trigger] ps[j], es[event_pos(es, ps[j].killmail_id)]),
            ),
    decreases ps.len(),
{
    if ps.len() > 0 {
        let d = ps.drop_last();
        let rest = history_rows(es, d, id, sbj, since);
        let rows = history_rows(es, ps, id, sbj, since);
        lemma_history_rows(es, d, id, sbj, since);
        assert forall|u: int| 0 <= u < rows.len() implies exists|j: int|
            0 <= j < ps.len() && subject_field(ps[j], sbj) == Some(id) && in_window(
                es,
                ps[j].killmail_id,
                since,
            ) && #[trigger] rows[u] == raw_history(ps[j], es[event_pos(es, ps[j].killmail_id)]) by {
            if u < rest.len() {
                assert(rows[u] == rest[u]);
                let j = choose|j: int|
                    0 <= j < d.len() && subject_field(d[j], sbj) == Some(id) && in_window(
                        es,
                        d[j].killmail_id,
                        since,
                    ) && #[trigger] rest[u] == raw_history(d[j], es[event_pos(es, d[j].killmail_id)]);
                assert(d[j] == ps[j]);
            } else {
                assert(rows[u] == raw_history(ps.last(), es[event_pos(es, ps.last().killmail_id)]));
                assert(ps[ps.len() - 1] == ps.last());
            }
        }
        assert forall|j: int|
            0 <= j < ps.len() && subject_field(ps[j], sbj) == Some(id) && in_window(
                es,
                ps[j].killmail_id,
                since,
            ) implies rows.contains(
            raw_history(#[trigger] ps[j], es[event_pos(es, ps[j].killmail_id)]),
        ) by {
            if j < ps.len() - 1 {
                assert(d[j] == ps[j]);
                let u = choose|u: int|
                    0 <= u < rest.len() && rest[u] == raw_history(
                        d[j],
                        es[event_pos(es, d[j].killmail_id)],
                    );
                assert(rows[u] == rest[u]);
            } else {
                assert(rows[rows.len() - 1] == raw_history(ps[j], es[event_pos(es, ps[j].killmail_id)]));
            }
        }
    } else {
        assert(history_rows(es, ps, id, sbj, since).len() == 0);
    }
}

/// Window boundary: a participation of the subject shows in its history
/// exactly when its event's timestamp is not before the window's start, so
/// an event stamped at the start is included and an older one is not.
/// Relations and activity test the same condition (`in_window`).
pub proof fn lemma_window_boundary(
    es: Seq<EventView>,
    ps: Seq<ParticipantRow>,
    id: i32,
    sbj: QuerySubject,
    since: Seq<char>,
    j: int,
)
    requires
        store_wf(es, ps),
        0 <= j < ps.len(),
        subject_field(ps[j], sbj) == Some(id),
    ensures
        ({
            let e = es[event_pos(es, ps[j].killmail_id)];
            &&& e.killmail_id == ps[j].killmail_id
            &&& history_rows(es, ps, id, sbj, since).contains(raw_history(ps[j], e)) <==> text_le(
                since,
                e.killmail_time,
            )
            &&& e.killmail_time == since ==> history_rows(es, ps, id, sbj, since).contains(
                raw_history(ps[j], e),
            )
        }),
{
    let kid = ps[j].killmail_id;
    assert(has_event(es, kid));
    lemma_event_pos(es, kid);
    let e = es[event_pos(es, kid)];
    lemma_history_rows(es, ps, id, sbj, since);
    lemma_text_le_refl(since);
    let rows = history_rows(es, ps, id, sbj, since);
    if rows.contains(raw_history(ps[j], e)) {
        let u = choose|u: int| 0 <= u < rows.len() && rows[u] == raw_history(ps[j], e);
        let t = choose|t: int|
            0 <= t < ps.len() && subject_field(ps[t], sbj) == Some(id) && in_window(
                es,
                ps[t].killmail_id,
                since,
            ) && #[trigger] rows[u] == raw_history(ps[t], es[event_pos(es, ps[t].killmail_id)]);
        assert(ps[t].killmail_id == kid);
    }
}

/// Retention: after a sweep with horizon `h`, every stored event is at or
/// after `h`; every event at or after `h` is still stored, and so is every
/// participant of it; an event that was before `h` is no longer stored, so
/// no window of history, relations or activity (all of which test
/// `in_window`) contains it; and no history query returns a row of it.
pub proof fn lemma_retention(
    es: Seq<EventView>,
    ps: Seq<ParticipantRow>,
    h: Seq<char>,
    id: i32,
    sbj: QuerySubject,
    since: Seq<char>,
)
    requires
        store_wf(es, ps),
    ensures
        forall|u: int|
            0 <= u < kept_events(es, h).len() ==> text_le(
                h,
                (#[trigger] kept_events(es, h)[u]).killmail_time,
            ),
        forall|t: int|
            0 <= t < es.len() && text_le(h, es[t].killmail_time) ==> kept_events(es, h).contains(
                #[trigger] es[t],
            ),
        forall|t: int|
            0 <= t < ps.len() && in_window(es, ps[t].killmail_id, h) ==> kept_parts(
                es,
                ps,
                h,
            ).contains(#[trigger] ps[t]),
        forall|u: int|
            0 <= u < history_rows(kept_events(es, h), kept_parts(es, ps, h), id, sbj, since).len()
                ==> !removed_ids(es, h).contains(
                (#[trigger] history_rows(
                    kept_events(es, h),
                    kept_parts(es, ps, h),
                    id,
                    sbj,
                    since,
                )[u]).killmail_id,
            ),
        forall|u: int|
            0 <= u < removed_ids(es, h).len() ==> !has_event(
                kept_events(es, h),
                #[trigger] removed_ids(es, h)[u],
            ),
{
    let nes = kept_events(es, h);
    let nps = kept_parts(es, ps, h);
    lemma_kept_events(es, h);
    lemma_kept_parts(es, ps, h);
    lemma_removed_ids(es, h);
    lemma_history_rows(nes, nps, id, sbj, since);
    assert forall|u: int| 0 <= u < nes.len() implies text_le(h, (#[trigger] nes[u]).killmail_time) by {
        let t = choose|t: int|
            0 <= t < es.len() && #[trigger] nes[u] == es[t] && text_le(h, es[t].killmail_time);
    }
    let removed = removed_ids(es, h);
    assert forall|u: int| 0 <= u < removed.len() implies !has_event(nes, #[trigger] removed[u]) by {
        let w = choose|w: int|
            0 <= w < es.len() && #[trigger] removed[u] == es[w].killmail_id && !text_le(
                h,
                es[w].killmail_time,
            );
        if has_event(nes, removed[u]) {
            let v = choose|v: int| 0 <= v < nes.len() && (#[trigger] nes[v]).killmail_id == removed[u];
            let t = choose|t: int|
                0 <= t < es.len() && #[trigger] nes[v] == es[t] && text_le(h, es[t].killmail_time);
            lemma_event_pos_unique(es, w);
            lemma_event_pos_unique(es, t);
        }
    }
    let rows = history_rows(nes, nps, id, sbj, since);
    assert forall|u: int| 0 <= u < rows.len() implies !removed_ids(es, h).contains(
        (#[trigger] rows[u]).killmail_id,
    ) by {
        let j = choose|j: int|
            0 <= j < nps.len() && subject_field(nps[j], sbj) == Some(id) && in_window(
                nes,
                nps[j].killmail_id,
                since,
            ) && #[trigger] rows[u] == raw_history(nps[j], nes[event_pos(nes, nps[j].killmail_id)]);
        assert(row_survives(es, ps, h, nps[j]));
        let t = choose|t: int|
            0 <= t < ps.len() && ps[t] == nps[j] && #[trigger] in_window(es, ps[t].killmail_id, h);
        let kid = ps[t].killmail_id;
        lemma_event_pos(es, kid);
        if removed_ids(es, h).contains(kid) {
            let v = choose|v: int| 0 <= v < removed_ids(es, h).len() && removed_ids(es, h)[v] == kid;
            let w = choose|w: int|
                0 <= w < es.len() && #[trigger] removed_ids(es, h)[v] == es[w].killmail_id
                    && !text_le(h, es[w].killmail_time);
            lemma_event_pos_unique(es, w);
        }
    }
}

/// Inserting rows keeps participant keys unique.
proof fn lemma_insert_all_unique(ps: Seq<ParticipantRow>, xs: Seq<ParticipantRow>)
    requires
        keys_unique(ps),
    ensures
        keys_unique(insert_all(ps, xs)),
    decreases xs.len(),
{
    if xs.len() > 0 {
        let q = insert_all(ps, xs.drop_last());
        lemma_insert_all_unique(ps, xs.drop_last());
        let x = xs.last();
        if !has_key(q, x) {
            let r = q.push(x);
            assert forall|i: int, j: int| 0 <= i < j < r.len() implies !same_key(
                #[trigger] r[i],
                #[trigger] r[j],
            ) by {
                if j < q.len() {
                    assert(r[i] == q[i] && r[j] == q[j]);
                } else {
                    assert(r[i] == q[i]);
                    assert(r[j] == x);
                    if same_key(q[i], x) {
                        assert(has_key(q, x));
                    }
                }
            }
        }
    }
}

/// Every row after inserting `xs` into `ps` is a row of `ps` or of `xs`.
proof fn lemma_insert_all_from(ps: Seq<ParticipantRow>, xs: Seq<ParticipantRow>)
    ensures
        forall|i: int|
            0 <= i < insert_all(ps, xs).len() ==> ps.contains(#[trigger] insert_all(ps, xs)[i])
                || xs.contains(insert_all(ps, xs)[i]),
    decreases xs.len(),
{
    if xs.len() > 0 {
        let d = xs.drop_last();
        let q = insert_all(ps, d);
        let r = insert_all(ps, xs);
        lemma_insert_all_from(ps, d);
        assert forall|i: int| 0 <= i < r.len() implies ps.contains(#[trigger] r[i]) || xs.contains(r[i]) by {
            if i < q.len() {
                assert(r[i] == q[i]);
                if d.contains(q[i]) {
                    let t = choose|t: int| 0 <= t < d.len() && d[t] == q[i];
                    assert(xs[t] == d[t]);
                }
            } else {
                assert(r[i] == xs[xs.len() - 1]);
            }
        }
    }
}

/// The store after inserting the same killmail `n` times.
pub open spec fn insert_repeated(
    es: Seq<EventView>,
    ps: Seq<ParticipantRow>,
    k: Killmail,
    n: nat,
) -> (Seq<EventView>, Seq<ParticipantRow>)
    decreases n,
{
    if n == 0 {
        (es, ps)
    } else {
        let before = insert_repeated(es, ps, k, (n - 1) as nat);
        (insert_event_row(before.0, event_of(k)), insert_all(before.1, killmail_rows(k)))
    }
}

/// Exactly one row per key: after inserting a killmail any number `n >= 1`
/// of times into a well-formed store, the store is the one a single
/// insertion gives, there is exactly one event with the killmail's id, and
/// for each of its victim and attacker rows exactly one participant row has
/// that row's key (event, character, victim flag), an unidentified
/// character included.
pub proof fn lemma_insert_exactly_once(es: Seq<EventView>, ps: Seq<ParticipantRow>, k: Killmail, n: nat)
    requires
        store_wf(es, ps),
        n >= 1,
    ensures
        insert_repeated(es, ps, k, n) == insert_repeated(es, ps, k, 1),
        has_event(insert_repeated(es, ps, k, n).0, k.killmail_id),
        ids_unique(insert_repeated(es, ps, k, n).0),
        forall|i: int|
            0 <= i < killmail_rows(k).len() ==> has_key(
                insert_repeated(es, ps, k, n).1,
                #[trigger] killmail_rows(k)[i],
            ),
        keys_unique(insert_repeated(es, ps, k, n).1),
    decreases n,
{
    let one = insert_repeated(es, ps, k, 1);
    assert(insert_repeated(es, ps, k, 0) == (es, ps));
    if n > 1 {
        lemma_insert_exactly_once(es, ps, k, (n - 1) as nat);
        lemma_insert_idempotent(es, ps, k);
    }
    let e1 = one.0;
    if !has_event(es, k.killmail_id) {
        assert(e1[e1.len() - 1].killmail_id == k.killmail_id);
        assert forall|i: int, j: int| 0 <= i < j < e1.len() implies (#[trigger] e1[i]).killmail_id
            != (#[trigger] e1[j]).killmail_id by {
            if j < es.len() {
                assert(e1[i] == es[i] && e1[j] == es[j]);
            } else {
                assert(e1[i] == es[i]);
            }
        }
    }
    lemma_insert_all_holds(ps, killmail_rows(k));
    lemma_insert_all_unique(ps, killmail_rows(k));
}

/// Late attacker: into a store holding no rows of a killmail, insert it,
/// then insert it again with one more attacker whose character is none of
/// the killmail's attackers' characters.  The event row and every earlier
/// row stay as they were, and exactly that attacker's row is added.
pub proof fn lemma_insert_late_attacker(
    es: Seq<EventView>,
    ps: Seq<ParticipantRow>,
    k: Killmail,
    update: Killmail,
    a: Attackers,
    pos: int,
)
    requires
        forall|j: int| 0 <= j < ps.len() ==> (#[trigger] ps[j]).killmail_id != k.killmail_id,
        forall|i: int| 0 <= i < k.attackers@.len() ==> (#[trigger] k.attackers@[i]).character_id != a.character_id,
        update.killmail_id == k.killmail_id,
        update.victim == k.victim,
        0 <= pos <= k.attackers@.len(),
        update.attackers@ == k.attackers@.insert(pos, a),
    ensures
        insert_event_row(insert_event_row(es, event_of(k)), event_of(update)) == insert_event_row(
            es,
            event_of(k),
        ),
        insert_all(insert_all(ps, killmail_rows(k)), killmail_rows(update)) == insert_all(
            ps,
            killmail_rows(k),
        ).push(attacker_row(k.killmail_id, a)),
{
    let rows = killmail_rows(k);
    let q = insert_all(ps, rows);
    let row = attacker_row(k.killmail_id, a);
    lemma_insert_all_from(ps, rows);
    if has_key(q, row) {
        let i = choose|i: int| 0 <= i < q.len() && same_key(q[i], row);
        if ps.contains(q[i]) {
            let j = choose|j: int| 0 <= j < ps.len() && ps[j] == q[i];
            assert(ps[j].killmail_id == k.killmail_id);
        } else {
            let t = choose|t: int| 0 <= t < rows.len() && rows[t] == q[i];
            if t > 0 {
                assert(rows[t] == attacker_row(k.killmail_id, k.attackers@[t - 1]));
            }
        }
    }
    lemma_insert_new_attacker(es, ps, k, update, a, pos);
}

/// How many times `h` occurs in `hours`.
pub open spec fn count_in(hours: Seq<i32>, h: i32) -> nat
    decreases hours.len(),
{
    if hours.len() == 0 {
        0
    } else {
        count_in(hours.drop_last(), h) + if hours.last() == h {
            1nat
        } else {
            0nat
        }
    }
}

/// The hours of day of the subject's participations in the window, in
/// order of the rows.
pub open spec fn active_hours(
    es: Seq<EventView>,
    qs: Seq<ParticipantRow>,
    id: i32,
    sbj: QuerySubject,
    since: Seq<char>,
) -> Seq<i32>
    decreases qs.len(),
{
    if qs.len() == 0 {
        Seq::empty()
    } else {
        let rest = active_hours(es, qs.drop_last(), id, sbj, since);
        let p = qs.last();
        if subject_field(p, sbj) == Some(id) && in_window(es, p.killmail_id, since) {
            rest.push(hour_of(es[event_pos(es, p.killmail_id)].killmail_time) as i32)
        } else {
            rest
        }
    }
}

/// Hour histogram: the activity count of each hour is how often that hour
/// occurs among the hours of the subject's participations in the window
/// (so hours 3, 3 and 17 give 2 at hour 3, 1 at hour 17 and 0 elsewhere).
pub proof fn lemma_activity_histogram(
    es: Seq<EventView>,
    qs: Seq<ParticipantRow>,
    id: i32,
    sbj: QuerySubject,
    since: Seq<char>,
    h: i32,
)
    requires
        store_wf(es, qs),
    ensures
        activity_count(es, qs, id, sbj, since, h) == count_in(active_hours(es, qs, id, sbj, since), h),
    decreases qs.len(),
{
    if qs.len() > 0 {
        let d = qs.drop_last();
        assert forall|j: int| 0 <= j < d.len() implies has_event(es, (#[trigger] d[j]).killmail_id) by {
            assert(d[j] == qs[j]);
        }
        assert forall|i: int, j: int| 0 <= i < j < d.len() implies !same_key(#[trigger] d[i], #[trigger] d[j]) by {
            assert(d[i] == qs[i] && d[j] == qs[j]);
        }
        lemma_activity_histogram(es, d, id, sbj, since, h);
        let p = qs.last();
        let hours = active_hours(es, qs, id, sbj, since);
        if subject_field(p, sbj) == Some(id) && in_window(es, p.killmail_id, since) {
            let i = event_pos(es, p.killmail_id);
            lemma_event_pos(es, p.killmail_id);
            let t = es[i].killmail_time;
            assert(0 <= hour_of(t) < 24);
            assert(hours.drop_last() =~= active_hours(es, d, id, sbj, since));
        }
    }
}

/// Window boundary for relations: a seed candidate's event seeds the
/// relation exactly when its timestamp is not before the window's start, so
/// an event stamped at the start seeds it and an older one does not; and a
/// row of that event counts toward its identifier `k` (not the subject's id,
/// not 0) exactly then.
pub proof fn lemma_window_boundary_relations(
    es: Seq<EventView>,
    ps: Seq<ParticipantRow>,
    id: i32,
    sbj: QuerySubject,
    rel: RelationType,
    since: Seq<char>,
    j: int,
    q: ParticipantRow,
    k: i32,
)
    requires
        store_wf(es, ps),
        0 <= j < ps.len(),
        subject_field(ps[j], sbj) == Some(id),
        ps[j].is_victim == seeds_from_victim(rel),
        q.killmail_id == ps[j].killmail_id,
        subject_field(q, target_of(rel)) == Some(k),
        k != id,
        k != 0,
    ensures
        ({
            let e = es[event_pos(es, ps[j].killmail_id)];
            &&& e.killmail_id == ps[j].killmail_id
            &&& is_seed(es, ps, id, sbj, seeds_from_victim(rel), since, e.killmail_id) <==> text_le(
                since,
                e.killmail_time,
            )
            &&& relates(es, ps, id, sbj, rel, since, q, k) <==> text_le(since, e.killmail_time)
            &&& e.killmail_time == since ==> relates(es, ps, id, sbj, rel, since, q, k)
        }),
{
    let kid = ps[j].killmail_id;
    assert(has_event(es, kid));
    lemma_event_pos(es, kid);
    lemma_text_le_refl(since);
    assert(seeds_event(ps[j], kid, id, sbj, seeds_from_victim(rel)));
}

/// Window boundary for activity: a participation of the subject counts at
/// its event's hour exactly when the event's timestamp is not before the
/// window's start, an event stamped at the start included.
pub proof fn lemma_window_boundary_activity(
    es: Seq<EventView>,
    ps: Seq<ParticipantRow>,
    id: i32,
    sbj: QuerySubject,
    since: Seq<char>,
    j: int,
)
    requires
        store_wf(es, ps),
        0 <= j < ps.len(),
        subject_field(ps[j], sbj) == Some(id),
    ensures
        ({
            let e = es[event_pos(es, ps[j].killmail_id)];
            &&& e.killmail_id == ps[j].killmail_id
            &&& active_at(es, ps[j], id, sbj, since, hour_of(e.killmail_time) as i32) <==> text_le(
                since,
                e.killmail_time,
            )
            &&& e.killmail_time == since ==> active_at(
                es,
                ps[j],
                id,
                sbj,
                since,
                hour_of(e.killmail_time) as i32,
            )
        }),
{
    let kid = ps[j].killmail_id;
    assert(has_event(es, kid));
    lemma_event_pos(es, kid);
    lemma_text_le_refl(since);
    let e = es[event_pos(es, kid)];
    assert(0 <= hour_of(e.killmail_time) < 24);
}

} // verus!

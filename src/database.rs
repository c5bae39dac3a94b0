//! The store of killmails and participants, and the queries over it.
//!
//! A `Store` holds two relations: events (one row per killmail) and
//! participants (the victim and each attacker of an event).  Every write is
//! insert-or-ignore: an event is keyed by its id, a participant by its event,
//! its character and its victim flag.  Friend and enemy relations are not
//! stored; they are derived per query from shared events.
use vstd::prelude::*;

use crate::killmail::{Attackers, Killmail};
use crate::tally::{bump, is_tally, tally};
use crate::timestamp::{utc_text, utc_text_of, MAX_UTC_SECS, MIN_UTC_SECS, Day, hour_of, hour_of_text, is_timestamp, is_timestamp_text, text_le, text_less, text_lt};

verus! {

/// Which identifier of a participant a query matches.
#[derive(Debug, Clone, Copy, PartialEq, Eq, Structural)]
pub enum QuerySubject {
    Character,
    Corporation,
    Alliance,
}

/// The six derived relations: friends or enemies, grouped by character,
/// corporation or alliance.
#[derive(Debug, Clone, Copy, PartialEq, Eq, Structural)]
pub enum RelationType {
    FriendsChar,
    EnemiesChar,
    FriendsCorp,
    EnemiesCorp,
    FriendsAlli,
    EnemiesAlli,
}

/// The column that holds the identifier a subject kind selects.
pub open spec fn column_of(s: QuerySubject) -> Seq<char> {
    match s {
        QuerySubject::Character => "character_id"@,
        QuerySubject::Corporation => "corporation_id"@,
        QuerySubject::Alliance => "alliance_id"@,
    }
}

/// The grouping a relation counts by.
pub open spec fn target_of(r: RelationType) -> QuerySubject {
    match r {
        RelationType::FriendsChar | RelationType::EnemiesChar => QuerySubject::Character,
        RelationType::FriendsCorp | RelationType::EnemiesCorp => QuerySubject::Corporation,
        RelationType::FriendsAlli | RelationType::EnemiesAlli => QuerySubject::Alliance,
    }
}

/// Enemies are seeded from the events in which the subject was the victim,
/// friends from those in which it attacked.
pub open spec fn seeds_from_victim(r: RelationType) -> bool {
    match r {
        RelationType::EnemiesChar | RelationType::EnemiesCorp | RelationType::EnemiesAlli => true,
        _ => false,
    }
}

impl QuerySubject {
    /// The column name of the identifier this subject kind selects.
    pub fn get_field(relation: &Self) -> (r: &'static str)
        ensures
            r@ == column_of(*relation),
    {
        match relation {
            QuerySubject::Character => "character_id",
            QuerySubject::Corporation => "corporation_id",
            QuerySubject::Alliance => "alliance_id",
        }
    }
}

impl RelationType {
    /// The column name of the identifier the relation groups by.
    pub fn get_field(relation: &RelationType) -> (r: &'static str)
        ensures
            r@ == column_of(target_of(*relation)),
    {
        let target = RelationType::target(relation);
        QuerySubject::get_field(&target)
    }

    /// The victim flag of the subject's rows that seed the relation:
    /// 1 for enemies, 0 for friends.
    pub fn get_victim_value(relation: &RelationType) -> (r: i16)
        ensures
            r == (if seeds_from_victim(*relation) { 1i16 } else { 0i16 }),
    {
        match relation {
            RelationType::FriendsChar | RelationType::FriendsCorp | RelationType::FriendsAlli => 0,
            RelationType::EnemiesChar | RelationType::EnemiesCorp | RelationType::EnemiesAlli => 1,
        }
    }

    /// The grouping the relation counts by.
    pub fn target(relation: &RelationType) -> (r: QuerySubject)
        ensures
            r == target_of(*relation),
    {
        match relation {
            RelationType::FriendsChar | RelationType::EnemiesChar => QuerySubject::Character,
            RelationType::FriendsCorp | RelationType::EnemiesCorp => QuerySubject::Corporation,
            RelationType::FriendsAlli | RelationType::EnemiesAlli => QuerySubject::Alliance,
        }
    }
}

/// A stored event.
#[derive(Debug, Clone)]
pub struct EventRow {
    pub killmail_id: i32,
    pub killmail_time: String,
    pub solar_system_id: i32,
}

/// What the engine knows of a stored event.
pub struct EventView {
    pub killmail_id: i32,
    pub killmail_time: Seq<char>,
    pub solar_system_id: i32,
}

impl View for EventRow {
    type V = EventView;

    open spec fn view(&self) -> EventView {
        EventView {
            killmail_id: self.killmail_id,
            killmail_time: self.killmail_time@,
            solar_system_id: self.solar_system_id,
        }
    }
}

/// A stored participant: the victim or one attacker of an event.
#[derive(Debug, Clone, Copy)]
pub struct ParticipantRow {
    pub killmail_id: i32,
    pub character_id: Option<i32>,
    pub corporation_id: Option<i32>,
    pub alliance_id: Option<i32>,
    pub ship_type_id: Option<i32>,
    pub damage: i32,
    pub is_victim: bool,
}

/// A participant row joined with the timestamp and location of its event.
#[derive(Debug, Clone)]
pub struct RawHistory {
    pub killmail_id: i32,
    pub character_id: Option<i32>,
    pub corporation_id: Option<i32>,
    pub alliance_id: Option<i32>,
    pub ship_type_id: Option<i32>,
    pub damage: i32,
    pub is_victim: bool,
    pub solar_system_id: i32,
    pub killmail_time: String,
}

/// What a history row says.
pub struct HistoryView {
    pub killmail_id: i32,
    pub character_id: Option<i32>,
    pub corporation_id: Option<i32>,
    pub alliance_id: Option<i32>,
    pub ship_type_id: Option<i32>,
    pub damage: i32,
    pub is_victim: bool,
    pub solar_system_id: i32,
    pub killmail_time: Seq<char>,
}

impl View for RawHistory {
    type V = HistoryView;

    open spec fn view(&self) -> HistoryView {
        HistoryView {
            killmail_id: self.killmail_id,
            character_id: self.character_id,
            corporation_id: self.corporation_id,
            alliance_id: self.alliance_id,
            ship_type_id: self.ship_type_id,
            damage: self.damage,
            is_victim: self.is_victim,
            solar_system_id: self.solar_system_id,
            killmail_time: self.killmail_time@,
        }
    }
}

/// An identifier (or an hour of day) and how many times it was counted.
pub type RawRelation = (i32, usize);

/// Why an operation on the store did not happen.
#[derive(Debug, Clone)]
pub enum StoreError {
    /// The input cannot be taken as an event; the text says what was wrong.
    Malformed(String),
    /// The store was held by another operation.
    Busy,
    /// A participant row refers to an event that is not stored; the
    /// number is the id it refers to.
    Constraint(i32),
    /// A query parameter could not be read; the text is the offending value.
    InvalidParameter(String),
}

/// The identifier of `p` that a subject kind selects.
pub open spec fn subject_field(p: ParticipantRow, s: QuerySubject) -> Option<i32> {
    match s {
        QuerySubject::Character => p.character_id,
        QuerySubject::Corporation => p.corporation_id,
        QuerySubject::Alliance => p.alliance_id,
    }
}

/// The position of the event with id `id`, or -1 when there is none.
pub open spec fn event_pos(es: Seq<EventView>, id: i32) -> int
    decreases es.len(),
{
    if es.len() == 0 {
        -1
    } else if es.last().killmail_id == id {
        es.len() - 1
    } else {
        event_pos(es.drop_last(), id)
    }
}

/// The event `id` is stored and its timestamp is not before `since`.
pub open spec fn in_window(es: Seq<EventView>, id: i32, since: Seq<char>) -> bool {
    let i = event_pos(es, id);
    0 <= i && text_le(since, es[i].killmail_time)
}

/// There is an event with id `id`.
pub open spec fn has_event(es: Seq<EventView>, id: i32) -> bool {
    exists|i: int| 0 <= i < es.len() && (#[trigger] es[i]).killmail_id == id
}

/// Two participant rows share the key (event, character, victim flag).
pub open spec fn same_key(a: ParticipantRow, b: ParticipantRow) -> bool {
    &&& a.killmail_id == b.killmail_id
    &&& a.character_id == b.character_id
    &&& a.is_victim == b.is_victim
}

/// Some row of `ps` has the key of `p`.
pub open spec fn has_key(ps: Seq<ParticipantRow>, p: ParticipantRow) -> bool {
    exists|i: int| 0 <= i < ps.len() && same_key(#[trigger] ps[i], p)
}

pub open spec fn ids_unique(es: Seq<EventView>) -> bool {
    forall|i: int, j: int|
        0 <= i < j < es.len() ==> (#[trigger] es[i]).killmail_id != (#[trigger] es[j]).killmail_id
}

pub open spec fn keys_unique(ps: Seq<ParticipantRow>) -> bool {
    forall|i: int, j: int| 0 <= i < j < ps.len() ==> !same_key(#[trigger] ps[i], #[trigger] ps[j])
}

/// Every participant belongs to a stored event.
pub open spec fn owned(es: Seq<EventView>, ps: Seq<ParticipantRow>) -> bool {
    forall|j: int| 0 <= j < ps.len() ==> has_event(es, (#[trigger] ps[j]).killmail_id)
}

pub open spec fn times_valid(es: Seq<EventView>) -> bool {
    forall|i: int| 0 <= i < es.len() ==> is_timestamp((#[trigger] es[i]).killmail_time)
}

/// The invariant of a store: unique event ids, unique participant keys,
/// every participant owned by an event, every timestamp well formed.
pub open spec fn store_wf(es: Seq<EventView>, ps: Seq<ParticipantRow>) -> bool {
    &&& ids_unique(es)
    &&& keys_unique(ps)
    &&& owned(es, ps)
    &&& times_valid(es)
}

/// The history row of participant `p` in event `e`.
pub open spec fn raw_history(p: ParticipantRow, e: EventView) -> HistoryView {
    HistoryView {
        killmail_id: p.killmail_id,
        character_id: p.character_id,
        corporation_id: p.corporation_id,
        alliance_id: p.alliance_id,
        ship_type_id: p.ship_type_id,
        damage: p.damage,
        is_victim: p.is_victim,
        solar_system_id: e.solar_system_id,
        killmail_time: e.killmail_time,
    }
}

/// The rows of `ps`, in order, whose subject identifier is `id` and whose
/// event lies in the window that starts at `since`.
pub open spec fn history_rows(
    es: Seq<EventView>,
    ps: Seq<ParticipantRow>,
    id: i32,
    sbj: QuerySubject,
    since: Seq<char>,
) -> Seq<HistoryView>
    decreases ps.len(),
{
    if ps.len() == 0 {
        Seq::empty()
    } else {
        let rest = history_rows(es, ps.drop_last(), id, sbj, since);
        let p = ps.last();
        if subject_field(p, sbj) == Some(id) && in_window(es, p.killmail_id, since) {
            rest.push(raw_history(p, es[event_pos(es, p.killmail_id)]))
        } else {
            rest
        }
    }
}

/// `es` with `e` appended, unless an event with its id is already there.
pub open spec fn insert_event_row(es: Seq<EventView>, e: EventView) -> Seq<EventView> {
    if has_event(es, e.killmail_id) {
        es
    } else {
        es.push(e)
    }
}

/// `ps` with `p` appended, unless a row with its key is already there.
pub open spec fn insert_or_ignore(ps: Seq<ParticipantRow>, p: ParticipantRow) -> Seq<ParticipantRow> {
    if has_key(ps, p) {
        ps
    } else {
        ps.push(p)
    }
}

/// Each row of `xs`, in order, inserted into `ps` with insert-or-ignore.
pub open spec fn insert_all(ps: Seq<ParticipantRow>, xs: Seq<ParticipantRow>) -> Seq<ParticipantRow>
    decreases xs.len(),
{
    if xs.len() == 0 {
        ps
    } else {
        insert_or_ignore(insert_all(ps, xs.drop_last()), xs.last())
    }
}

/// The event row of a killmail.
pub open spec fn event_of(k: Killmail) -> EventView {
    EventView {
        killmail_id: k.killmail_id,
        killmail_time: k.killmail_time@,
        solar_system_id: k.solar_system_id,
    }
}

/// The participant row of a killmail's victim.
pub open spec fn victim_row(k: Killmail) -> ParticipantRow {
    ParticipantRow {
        killmail_id: k.killmail_id,
        character_id: k.victim.character_id,
        corporation_id: k.victim.corporation_id,
        alliance_id: k.victim.alliance_id,
        ship_type_id: k.victim.ship_type_id,
        damage: k.victim.damage_taken,
        is_victim: true,
    }
}

/// The participant row of an attacker of killmail `id`.
pub open spec fn attacker_row(id: i32, a: Attackers) -> ParticipantRow {
    ParticipantRow {
        killmail_id: id,
        character_id: a.character_id,
        corporation_id: a.corporation_id,
        alliance_id: a.alliance_id,
        ship_type_id: a.ship_type_id,
        damage: a.damage_done,
        is_victim: false,
    }
}

/// The participant rows of a killmail: the victim, then each attacker.
pub open spec fn killmail_rows(k: Killmail) -> Seq<ParticipantRow> {
    seq![victim_row(k)] + k.attackers@.map_values(|a: Attackers| attacker_row(k.killmail_id, a))
}

/// `event_pos` finds the event with the id asked for, and finds one
/// whenever there is one.
pub proof fn lemma_event_pos(es: Seq<EventView>, id: i32)
    ensures
        -1 <= event_pos(es, id) < es.len(),
        event_pos(es, id) >= 0 ==> es[event_pos(es, id)].killmail_id == id,
        event_pos(es, id) == -1 <==> !has_event(es, id),
    decreases es.len(),
{
    if es.len() > 0 {
        lemma_event_pos(es.drop_last(), id);
        if es.last().killmail_id != id && event_pos(es, id) == -1 {
            assert forall|i: int| 0 <= i < es.len() implies es[i].killmail_id != id by {
                if i < es.len() - 1 {
                    assert(es.drop_last()[i] == es[i]);
                }
            }
        }
        if event_pos(es.drop_last(), id) >= 0 {
            assert(es.drop_last()[event_pos(es.drop_last(), id)] == es[event_pos(es.drop_last(), id)]);
        }
    }
}

/// With unique ids, the event at position `i` is the one `event_pos` finds.
pub proof fn lemma_event_pos_unique(es: Seq<EventView>, i: int)
    requires
        ids_unique(es),
        0 <= i < es.len(),
    ensures
        event_pos(es, es[i].killmail_id) == i,
{
    lemma_event_pos(es, es[i].killmail_id);
}

/// Participant `p` puts the subject `id` on side `victim` of event `kid`.
pub open spec fn seeds_event(p: ParticipantRow, kid: i32, id: i32, sbj: QuerySubject, victim: bool) -> bool {
    &&& p.killmail_id == kid
    &&& subject_field(p, sbj) == Some(id)
    &&& p.is_victim == victim
}

/// Event `kid` seeds a relation: it lies in the window, and some row of `ps`
/// puts the subject `id` on side `victim` of it.
pub open spec fn is_seed(
    es: Seq<EventView>,
    ps: Seq<ParticipantRow>,
    id: i32,
    sbj: QuerySubject,
    victim: bool,
    since: Seq<char>,
    kid: i32,
) -> bool {
    &&& in_window(es, kid, since)
    &&& exists|j: int| 0 <= j < ps.len() && #[trigger] seeds_event(ps[j], kid, id, sbj, victim)
}

/// Row `q` counts toward `k` in relation `rel` of subject `id`: its event is
/// a seed, its identifier of the relation's grouping is `k`, and `k` is
/// neither the subject's own id nor the unidentified 0.
pub open spec fn relates(
    es: Seq<EventView>,
    ps: Seq<ParticipantRow>,
    id: i32,
    sbj: QuerySubject,
    rel: RelationType,
    since: Seq<char>,
    q: ParticipantRow,
    k: i32,
) -> bool {
    &&& is_seed(es, ps, id, sbj, seeds_from_victim(rel), since, q.killmail_id)
    &&& subject_field(q, target_of(rel)) == Some(k)
    &&& k != id
    &&& k != 0
}

/// How many rows of `qs` count toward `k` in relation `rel` of subject `id`,
/// the seeds being taken from the rows `ps`.
pub open spec fn relation_count(
    es: Seq<EventView>,
    ps: Seq<ParticipantRow>,
    qs: Seq<ParticipantRow>,
    id: i32,
    sbj: QuerySubject,
    rel: RelationType,
    since: Seq<char>,
    k: i32,
) -> nat
    decreases qs.len(),
{
    if qs.len() == 0 {
        0
    } else {
        relation_count(es, ps, qs.drop_last(), id, sbj, rel, since, k) + if relates(
            es,
            ps,
            id,
            sbj,
            rel,
            since,
            qs.last(),
            k,
        ) {
            1nat
        } else {
            0nat
        }
    }
}

/// Row `p` is a participation of subject `id` in the window, at hour `h`.
pub open spec fn active_at(
    es: Seq<EventView>,
    p: ParticipantRow,
    id: i32,
    sbj: QuerySubject,
    since: Seq<char>,
    h: i32,
) -> bool {
    &&& subject_field(p, sbj) == Some(id)
    &&& in_window(es, p.killmail_id, since)
    &&& hour_of(es[event_pos(es, p.killmail_id)].killmail_time) == h
}

/// How many rows of `qs` are participations of subject `id` in the window
/// at hour `h`.
pub open spec fn activity_count(
    es: Seq<EventView>,
    qs: Seq<ParticipantRow>,
    id: i32,
    sbj: QuerySubject,
    since: Seq<char>,
    h: i32,
) -> nat
    decreases qs.len(),
{
    if qs.len() == 0 {
        0
    } else {
        activity_count(es, qs.drop_last(), id, sbj, since, h) + if active_at(
            es,
            qs.last(),
            id,
            sbj,
            since,
            h,
        ) {
            1nat
        } else {
            0nat
        }
    }
}

pub proof fn lemma_relation_count_bound(
    es: Seq<EventView>,
    ps: Seq<ParticipantRow>,
    qs: Seq<ParticipantRow>,
    id: i32,
    sbj: QuerySubject,
    rel: RelationType,
    since: Seq<char>,
    k: i32,
)
    ensures
        relation_count(es, ps, qs, id, sbj, rel, since, k) <= qs.len(),
        relation_count(es, ps, qs, id, sbj, rel, since, k) > 0 ==> k != id && k != 0,
    decreases qs.len(),
{
    if qs.len() > 0 {
        lemma_relation_count_bound(es, ps, qs.drop_last(), id, sbj, rel, since, k);
    }
}

pub proof fn lemma_activity_count_bound(
    es: Seq<EventView>,
    qs: Seq<ParticipantRow>,
    id: i32,
    sbj: QuerySubject,
    since: Seq<char>,
    h: i32,
)
    requires
        times_valid(es),
    ensures
        activity_count(es, qs, id, sbj, since, h) <= qs.len(),
        activity_count(es, qs, id, sbj, since, h) > 0 ==> 0 <= h < 24,
    decreases qs.len(),
{
    if qs.len() > 0 {
        lemma_activity_count_bound(es, qs.drop_last(), id, sbj, since, h);
        lemma_event_pos(es, qs.last().killmail_id);
    }
}

/// The events of `es`, in order, whose timestamp is not before `h`.
pub open spec fn kept_events(es: Seq<EventView>, h: Seq<char>) -> Seq<EventView>
    decreases es.len(),
{
    if es.len() == 0 {
        Seq::empty()
    } else {
        let rest = kept_events(es.drop_last(), h);
        if text_le(h, es.last().killmail_time) {
            rest.push(es.last())
        } else {
            rest
        }
    }
}

/// The ids of the events of `es`, in order, whose timestamp is before `h`.
pub open spec fn removed_ids(es: Seq<EventView>, h: Seq<char>) -> Seq<i32>
    decreases es.len(),
{
    if es.len() == 0 {
        Seq::empty()
    } else {
        let rest = removed_ids(es.drop_last(), h);
        if text_le(h, es.last().killmail_time) {
            rest
        } else {
            rest.push(es.last().killmail_id)
        }
    }
}

/// The rows of `ps`, in order, whose event in `es` is not before `h`.
pub open spec fn kept_parts(es: Seq<EventView>, ps: Seq<ParticipantRow>, h: Seq<char>) -> Seq<
    ParticipantRow,
>
    decreases ps.len(),
{
    if ps.len() == 0 {
        Seq::empty()
    } else {
        let rest = kept_parts(es, ps.drop_last(), h);
        if in_window(es, ps.last().killmail_id, h) {
            rest.push(ps.last())
        } else {
            rest
        }
    }
}

/// The ids of the events of `es`, in order, whose timestamp lies in the
/// half-open range from `from` to `to`.
pub open spec fn ids_between(es: Seq<EventView>, from: Seq<char>, to: Seq<char>) -> Seq<i32>
    decreases es.len(),
{
    if es.len() == 0 {
        Seq::empty()
    } else {
        let rest = ids_between(es.drop_last(), from, to);
        let t = es.last().killmail_time;
        if text_le(from, t) && text_lt(t, to) {
            rest.push(es.last().killmail_id)
        } else {
            rest
        }
    }
}

/// The kept events are events of `es` at or after `h`, all of them, with
/// the ids and timestamps they had.
pub proof fn lemma_kept_events(es: Seq<EventView>, h: Seq<char>)
    ensures
        forall|u: int|
            0 <= u < kept_events(es, h).len() ==> exists|t: int|
                0 <= t < es.len() && #[trigger] kept_events(es, h)[u] == es[t] && text_le(
                    h,
                    es[t].killmail_time,
                ),
        forall|t: int|
            0 <= t < es.len() && text_le(h, es[t].killmail_time) ==> kept_events(es, h).contains(
                #[trigger] es[t],
            ),
        ids_unique(es) ==> ids_unique(kept_events(es, h)),
        times_valid(es) ==> times_valid(kept_events(es, h)),
    decreases es.len(),
{
    if es.len() > 0 {
        let d = es.drop_last();
        let rest = kept_events(d, h);
        let k = kept_events(es, h);
        lemma_kept_events(d, h);
        assert forall|u: int| 0 <= u < rest.len() implies exists|t: int|
            0 <= t < es.len() - 1 && #[trigger] rest[u] == es[t] && text_le(h, es[t].killmail_time) by {
            let t = choose|t: int|
                0 <= t < d.len() && #[trigger] rest[u] == d[t] && text_le(h, d[t].killmail_time);
            assert(d[t] == es[t]);
        }
        assert forall|u: int| 0 <= u < k.len() implies exists|t: int|
            0 <= t < es.len() && #[trigger] k[u] == es[t] && text_le(h, es[t].killmail_time) by {
            if u < rest.len() {
                assert(k[u] == rest[u]);
                let t = choose|t: int|
                    0 <= t < es.len() - 1 && #[trigger] rest[u] == es[t] && text_le(
                        h,
                        es[t].killmail_time,
                    );
            } else {
                assert(k[u] == es[es.len() - 1]);
            }
        }
        assert forall|t: int| 0 <= t < es.len() && text_le(h, es[t].killmail_time) implies k.contains(
            #[trigger] es[t],
        ) by {
            if t < es.len() - 1 {
                assert(d[t] == es[t]);
                let u = choose|u: int| 0 <= u < rest.len() && rest[u] == d[t];
                assert(k[u] == rest[u]);
            } else {
                assert(k[k.len() - 1] == es[t]);
            }
        }
        if ids_unique(es) {
            assert forall|i: int, j: int| 0 <= i < j < d.len() implies (#[trigger] d[i]).killmail_id
                != (#[trigger] d[j]).killmail_id by {
                assert(d[i] == es[i] && d[j] == es[j]);
            }
            assert forall|i: int, j: int| 0 <= i < j < k.len() implies (#[trigger] k[i]).killmail_id
                != (#[trigger] k[j]).killmail_id by {
                if j < rest.len() {
                    assert(k[i] == rest[i] && k[j] == rest[j]);
                } else {
                    assert(k[i] == rest[i]);
                    let t = choose|t: int|
                        0 <= t < es.len() - 1 && #[trigger] rest[i] == es[t] && text_le(
                            h,
                            es[t].killmail_time,
                        );
                    assert(k[j] == es[es.len() - 1]);
                }
            }
        }
        if times_valid(es) {
            assert forall|u: int| 0 <= u < k.len() implies is_timestamp(
                (#[trigger] k[u]).killmail_time,
            ) by {
                let t = choose|t: int|
                    0 <= t < es.len() && #[trigger] k[u] == es[t] && text_le(h, es[t].killmail_time);
            }
        }
    }
}

/// `x` is a row of `ps` whose event in `es` is not before `h`.
pub open spec fn row_survives(es: Seq<EventView>, ps: Seq<ParticipantRow>, h: Seq<char>, x: ParticipantRow) -> bool {
    exists|t: int| 0 <= t < ps.len() && ps[t] == x && #[trigger] in_window(es, ps[t].killmail_id, h)
}

/// The kept participants are rows of `ps` whose event is at or after `h`,
/// all of them.
pub proof fn lemma_kept_parts(es: Seq<EventView>, ps: Seq<ParticipantRow>, h: Seq<char>)
    ensures
        forall|u: int|
            0 <= u < kept_parts(es, ps, h).len() ==> row_survives(
                es,
                ps,
                h,
                #[trigger] kept_parts(es, ps, h)[u],
            ),
        forall|t: int|
            0 <= t < ps.len() && in_window(es, ps[t].killmail_id, h) ==> kept_parts(
                es,
                ps,
                h,
            ).contains(#[trigger] ps[t]),
        keys_unique(ps) ==> keys_unique(kept_parts(es, ps, h)),
    decreases ps.len(),
{
    if ps.len() > 0 {
        let d = ps.drop_last();
        let rest = kept_parts(es, d, h);
        let k = kept_parts(es, ps, h);
        lemma_kept_parts(es, d, h);
        assert forall|u: int| 0 <= u < k.len() implies row_survives(es, ps, h, #[trigger] k[u]) by {
            if u < rest.len() {
                assert(k[u] == rest[u]);
                assert(row_survives(es, d, h, rest[u]));
                let t = choose|t: int|
                    0 <= t < d.len() && d[t] == rest[u] && #[trigger] in_window(es, d[t].killmail_id, h);
                assert(d[t] == ps[t]);
                assert(in_window(es, ps[t].killmail_id, h));
            } else {
                assert(k[u] == ps[ps.len() - 1]);
                assert(in_window(es, ps[ps.len() - 1].killmail_id, h));
            }
        }
        assert forall|t: int| 0 <= t < ps.len() && in_window(es, ps[t].killmail_id, h) implies k.contains(
            #[trigger] ps[t],
        ) by {
            if t < ps.len() - 1 {
                assert(d[t] == ps[t]);
                let u = choose|u: int| 0 <= u < rest.len() && rest[u] == d[t];
                assert(k[u] == rest[u]);
            } else {
                assert(k[k.len() - 1] == ps[t]);
            }
        }
        if keys_unique(ps) {
            assert forall|i: int, j: int| 0 <= i < j < d.len() implies !same_key(
                #[trigger] d[i],
                #[trigger] d[j],
            ) by {
                assert(d[i] == ps[i] && d[j] == ps[j]);
            }
            assert forall|i: int, j: int| 0 <= i < j < k.len() implies !same_key(
                #[trigger] k[i],
                #[trigger] k[j],
            ) by {
                if j < rest.len() {
                    assert(k[i] == rest[i] && k[j] == rest[j]);
                } else {
                    assert(k[i] == rest[i]);
                    assert(row_survives(es, d, h, rest[i]));
                    let t = choose|t: int|
                        0 <= t < d.len() && d[t] == rest[i] && #[trigger] in_window(es, d[t].killmail_id, h);
                    assert(d[t] == ps[t]);
                    assert(k[j] == ps[ps.len() - 1]);
                }
            }
        }
    }
}

/// The removed ids are ids of events of `es` before `h`.
pub proof fn lemma_removed_ids(es: Seq<EventView>, h: Seq<char>)
    ensures
        forall|u: int|
            0 <= u < removed_ids(es, h).len() ==> exists|t: int|
                0 <= t < es.len() && #[trigger] removed_ids(es, h)[u] == es[t].killmail_id
                    && !text_le(h, es[t].killmail_time),
    decreases es.len(),
{
    if es.len() > 0 {
        let d = es.drop_last();
        let rest = removed_ids(d, h);
        let r = removed_ids(es, h);
        lemma_removed_ids(d, h);
        assert forall|u: int| 0 <= u < r.len() implies exists|t: int|
            0 <= t < es.len() && #[trigger] r[u] == es[t].killmail_id && !text_le(
                h,
                es[t].killmail_time,
            ) by {
            if u < rest.len() {
                assert(r[u] == rest[u]);
                let t = choose|t: int|
                    0 <= t < d.len() && #[trigger] rest[u] == d[t].killmail_id && !text_le(
                        h,
                        d[t].killmail_time,
                    );
                assert(d[t] == es[t]);
            } else {
                assert(r[u] == es[es.len() - 1].killmail_id);
            }
        }
    }
}

/// Sweeping keeps a store well formed.
pub proof fn lemma_cleanup_wf(es: Seq<EventView>, ps: Seq<ParticipantRow>, h: Seq<char>)
    requires
        store_wf(es, ps),
    ensures
        store_wf(kept_events(es, h), kept_parts(es, ps, h)),
{
    let nes = kept_events(es, h);
    let nps = kept_parts(es, ps, h);
    lemma_kept_events(es, h);
    lemma_kept_parts(es, ps, h);
    assert forall|j: int| 0 <= j < nps.len() implies has_event(nes, (#[trigger] nps[j]).killmail_id) by {
        assert(row_survives(es, ps, h, nps[j]));
        let t = choose|t: int|
            0 <= t < ps.len() && ps[t] == nps[j] && #[trigger] in_window(es, ps[t].killmail_id, h);
        let i = event_pos(es, ps[t].killmail_id);
        lemma_event_pos(es, ps[t].killmail_id);
        assert(nes.contains(es[i]));
        let u = choose|u: int| 0 <= u < nes.len() && nes[u] == es[i];
        assert(nes[u].killmail_id == nps[j].killmail_id);
    }
}

/// The events and participants of a killmail corpus.
pub struct Store {
    events: Vec<EventRow>,
    participants: Vec<ParticipantRow>,
}

impl Store {
    /// The stored events, in order of insertion.
    pub closed spec fn events(&self) -> Seq<EventView> {
        self.events@.map_values(|e: EventRow| e@)
    }

    /// The stored participants, in order of insertion.
    pub closed spec fn parts(&self) -> Seq<ParticipantRow> {
        self.participants@
    }

    pub open spec fn wf(&self) -> bool {
        store_wf(self.events(), self.parts())
    }

    #[verifier::type_invariant]
    spec fn inv(&self) -> bool {
        self.wf()
    }

    /// An empty store.
    pub fn new() -> (r: Store)
        ensures
            r.wf(),
            r.events() == Seq::<EventView>::empty(),
            r.parts() == Seq::<ParticipantRow>::empty(),
    {
        let r = Store { events: Vec::new(), participants: Vec::new() };
        assert(r.events() =~= Seq::<EventView>::empty());
        r
    }

    /// How many events are stored.
    pub fn event_count(&self) -> (r: usize)
        ensures
            r == self.events().len(),
    {
        self.events.len()
    }

    /// How many participant rows are stored.
    pub fn participant_count(&self) -> (r: usize)
        ensures
            r == self.parts().len(),
    {
        self.participants.len()
    }

    /// The participant row at position `i`, in order of insertion.
    pub fn participant(&self, i: usize) -> (r: ParticipantRow)
        requires
            i < self.parts().len(),
        ensures
            r == self.parts()[i as int],
    {
        self.participants[i]
    }

    /// Adds an event row read back from persistence, unless its id is
    /// already stored.  A row whose timestamp is not well formed is refused.
    pub fn restore_event(&mut self, e: EventRow) -> (r: Result<bool, StoreError>)
        ensures
            final(self).wf(),
            r is Ok <==> is_timestamp(e@.killmail_time),
            match r {
                Ok(added) => {
                    &&& final(self).events() == insert_event_row(old(self).events(), e@)
                    &&& final(self).parts() == old(self).parts()
                    &&& added == !has_event(old(self).events(), e.killmail_id)
                },
                Err(err) => {
                    &&& err is Malformed
                    &&& final(self).events() == old(self).events()
                    &&& final(self).parts() == old(self).parts()
                },
            },
    {
        proof {
            use_type_invariant(&*self);
        }
        if !is_timestamp_text(e.killmail_time.as_str()) {
            return Err(StoreError::Malformed(e.killmail_time));
        }
        Ok(self.add_event(e))
    }

    /// Adds a participant row read back from persistence, unless a row with
    /// its key is already stored.  A row whose event is not stored is refused.
    pub fn restore_participant(&mut self, p: ParticipantRow) -> (r: Result<bool, StoreError>)
        ensures
            final(self).wf(),
            r is Ok <==> has_event(old(self).events(), p.killmail_id),
            match r {
                Ok(added) => {
                    &&& final(self).parts() == insert_or_ignore(old(self).parts(), p)
                    &&& final(self).events() == old(self).events()
                    &&& added == !has_key(old(self).parts(), p)
                },
                Err(err) => {
                    &&& err == StoreError::Constraint(p.killmail_id)
                    &&& final(self).events() == old(self).events()
                    &&& final(self).parts() == old(self).parts()
                },
            },
    {
        proof {
            use_type_invariant(&*self);
        }
        proof {
            lemma_event_pos(self.events(), p.killmail_id);
        }
        match self.find_event(p.killmail_id) {
            Some(_) => Ok(self.add_participant(p)),
            None => Err(StoreError::Constraint(p.killmail_id)),
        }
    }

    /// Inserts the event unless its id is already stored.
    fn add_event(&mut self, e: EventRow) -> (added: bool)
        requires
            old(self).wf(),
            is_timestamp(e@.killmail_time),
        ensures
            final(self).wf(),
            final(self).events() == insert_event_row(old(self).events(), e@),
            final(self).parts() == old(self).parts(),
            added == !has_event(old(self).events(), e.killmail_id),
    {
        let ghost es = self.events();
        proof {
            lemma_event_pos(es, e.killmail_id);
        }
        match self.find_event(e.killmail_id) {
            Some(_) => false,
            None => {
                let ghost ev = e@;
                let (mut events, participants) = self.take_rows();
                events.push(e);
                let ghost nes = events@.map_values(|e: EventRow| e@);
                assert(nes =~= es.push(ev));
                assert forall|j: int| 0 <= j < participants@.len() implies has_event(
                    nes,
                    (#[trigger] participants@[j]).killmail_id,
                ) by {
                    let i = choose|i: int| 0 <= i < es.len() && es[i].killmail_id == participants@[j].killmail_id;
                    assert(nes[i] == es[i]);
                }
                *self = Store { events, participants };
                true
            },
        }
    }

    /// Inserts the participant unless a row with its key is already stored.
    fn add_participant(&mut self, p: ParticipantRow) -> (added: bool)
        requires
            old(self).wf(),
            has_event(old(self).events(), p.killmail_id),
        ensures
            final(self).wf(),
            final(self).parts() == insert_or_ignore(old(self).parts(), p),
            final(self).events() == old(self).events(),
            added == !has_key(old(self).parts(), p),
    {
        let ghost ps = self.parts();
        let mut j: usize = 0;
        while j < self.participants.len()
            invariant
                self.wf(),
                self.events() == old(self).events(),
                ps == old(self).parts(),
                ps == self.parts(),
                ps == self.participants@,
                j <= ps.len(),
                forall|t: int| 0 <= t < j ==> !same_key(#[trigger] ps[t], p),
            decreases ps.len() - j,
        {
            let q = &self.participants[j];
            if q.killmail_id == p.killmail_id && same_option(q.character_id, p.character_id)
                && q.is_victim == p.is_victim {
                assert(same_key(ps[j as int], p));
                return false;
            }
            j += 1;
        }
        let (events, mut participants) = self.take_rows();
        participants.push(p);
        assert(participants@ == ps.push(p));
        *self = Store { events, participants };
        true
    }

    /// Takes the rows out of the store, leaving it empty.
    fn take_rows(&mut self) -> (r: (Vec<EventRow>, Vec<ParticipantRow>))
        ensures
            r.0@.map_values(|e: EventRow| e@) == old(self).events(),
            r.1@ == old(self).parts(),
            store_wf(old(self).events(), old(self).parts()),
    {
        proof {
            use_type_invariant(&*self);
        }
        let mut taken = Store::new();
        std::mem::swap(self, &mut taken);
        let Store { events, participants } = taken;
        (events, participants)
    }

    /// The position of the event `id`.
    fn find_event(&self, id: i32) -> (r: Option<usize>)
        ensures
            match r {
                Some(i) => i as int == event_pos(self.events(), id) && i < self.events().len(),
                None => event_pos(self.events(), id) == -1,
            },
    {
        let ghost es = self.events();
        let mut i = self.events.len();
        assert(es.take(i as int) =~= es);
        while i > 0
            invariant
                i <= self.events@.len(),
                es == self.events(),
                event_pos(es, id) == event_pos(es.take(i as int), id),
            decreases i,
        {
            assert(es.take(i as int).drop_last() =~= es.take(i - 1));
            if self.events[i - 1].killmail_id == id {
                return Some(i - 1);
            }
            i -= 1;
        }
        None
    }
}

/// The identifier of `p` that a subject kind selects.
fn field_of(p: &ParticipantRow, s: QuerySubject) -> (r: Option<i32>)
    ensures
        r == subject_field(*p, s),
{
    match s {
        QuerySubject::Character => p.character_id,
        QuerySubject::Corporation => p.corporation_id,
        QuerySubject::Alliance => p.alliance_id,
    }
}

/// Whether the identifier of `p` that `s` selects is `id`.
fn matches_subject(p: &ParticipantRow, s: QuerySubject, id: i32) -> (r: bool)
    ensures
        r == (subject_field(*p, s) == Some(id)),
{
    match field_of(p, s) {
        Some(v) => v == id,
        None => false,
    }
}

/// Whether two optional identifiers are equal.
fn same_option(a: Option<i32>, b: Option<i32>) -> (r: bool)
    ensures
        r == (a == b),
{
    match (a, b) {
        (Some(x), Some(y)) => x == y,
        (None, None) => true,
        _ => false,
    }
}

/// The rows an insertion added.
#[derive(Debug, Clone)]
pub struct Inserted {
    /// Whether the event row was new.
    pub event_added: bool,
    /// The participant rows that were new, in the order they were written.
    pub participants: Vec<ParticipantRow>,
}

/// Stores a killmail: its event row unless the id is already stored, then
/// the victim's row and each attacker's row unless a row with the same key
/// is already stored.  A killmail whose timestamp is not well formed is
/// rejected before anything is written.
pub fn insert(store: &mut Store, killmail: Killmail) -> (r: Result<Inserted, StoreError>)
    ensures
        final(store).wf(),
        r is Ok <==> is_timestamp(killmail.killmail_time@),
        match r {
            Ok(w) => {
                &&& final(store).events() == insert_event_row(old(store).events(), event_of(killmail))
                &&& final(store).parts() == insert_all(old(store).parts(), killmail_rows(killmail))
                &&& final(store).parts() == old(store).parts() + w.participants@
                &&& w.event_added == !has_event(old(store).events(), killmail.killmail_id)
            },
            Err(e) => {
                &&& e is Malformed
                &&& final(store).events() == old(store).events()
                &&& final(store).parts() == old(store).parts()
            },
        },
{
    proof {
        use_type_invariant(&*store);
    }
    if !is_timestamp_text(killmail.killmail_time.as_str()) {
        return Err(StoreError::Malformed(killmail.killmail_time.clone()));
    }
    let ghost start_parts = store.parts();
    let ghost rows = killmail_rows(killmail);
    let id = killmail.killmail_id;
    let event = EventRow {
        killmail_id: id,
        killmail_time: killmail.killmail_time.clone(),
        solar_system_id: killmail.solar_system_id,
    };
    assert(event@ == event_of(killmail));
    let event_added = store.add_event(event);
    proof {
        lemma_event_pos(store.events(), id);
        lemma_event_pos(old(store).events(), id);
        if !has_event(old(store).events(), id) {
            assert(store.events()[store.events().len() - 1].killmail_id == id);
        }
    }
    let mut written: Vec<ParticipantRow> = Vec::new();
    let v = killmail.victim;
    let victim = ParticipantRow {
        killmail_id: id,
        character_id: v.character_id,
        corporation_id: v.corporation_id,
        alliance_id: v.alliance_id,
        ship_type_id: v.ship_type_id,
        damage: v.damage_taken,
        is_victim: true,
    };
    if store.add_participant(victim) {
        written.push(victim);
    }
    assert(rows.take(1).drop_last() =~= Seq::<ParticipantRow>::empty());
    assert(rows.take(1).last() == victim);
    assert(insert_all(start_parts, rows.take(1)) == insert_or_ignore(
        insert_all(start_parts, rows.take(1).drop_last()),
        victim,
    ));
    assert(insert_all(start_parts, Seq::<ParticipantRow>::empty()) == start_parts);
    assert(start_parts + written@ =~= store.parts());
    let mut i: usize = 0;
    while i < killmail.attackers.len()
        invariant
            store.wf(),
            i <= killmail.attackers@.len(),
            rows == killmail_rows(killmail),
            has_event(store.events(), id),
            id == killmail.killmail_id,
            store.events() == insert_event_row(old(store).events(), event_of(killmail)),
            store.parts() == insert_all(start_parts, rows.take(i + 1)),
            store.parts() == start_parts + written@,
        decreases killmail.attackers@.len() - i,
    {
        let a = killmail.attackers[i];
        let row = ParticipantRow {
            killmail_id: id,
            character_id: a.character_id,
            corporation_id: a.corporation_id,
            alliance_id: a.alliance_id,
            ship_type_id: a.ship_type_id,
            damage: a.damage_done,
            is_victim: false,
        };
        assert(rows.take(i + 2).drop_last() =~= rows.take(i + 1));
        assert(rows.take(i + 2).last() == rows[i + 1]);
        assert(rows[i + 1] == row);
        let ghost before = written@;
        if store.add_participant(row) {
            written.push(row);
            assert(start_parts + written@ =~= (start_parts + before).push(row));
        }
        i += 1;
    }
    assert(rows.take(killmail.attackers.len() + 1) =~= rows);
    Ok(Inserted { event_added, participants: written })
}

/// Every participant row whose subject identifier is `id`, joined with its
/// event, for the events whose timestamp is not before `since`.
pub fn history(store: &Store, id: i32, sbj: QuerySubject, since: &str) -> (r: Vec<RawHistory>)
    ensures
        r@.map_values(|x: RawHistory| x@) == history_rows(store.events(), store.parts(), id, sbj, since@),
{
    proof {
        use_type_invariant(store);
    }
    let ghost es = store.events();
    let ghost ps = store.parts();
    let mut rows: Vec<RawHistory> = Vec::new();
    let mut j: usize = 0;
    assert(rows@.map_values(|x: RawHistory| x@) =~= Seq::<HistoryView>::empty());
    while j < store.participants.len()
        invariant
            es == store.events(),
            ps == store.parts(),
            ps == store.participants@,
            j <= ps.len(),
            rows@.map_values(|x: RawHistory| x@) == history_rows(es, ps.take(j as int), id, sbj, since@),
        decreases ps.len() - j,
    {
        let p = store.participants[j];
        assert(ps.take(j + 1).drop_last() =~= ps.take(j as int));
        if matches_subject(&p, sbj, id) {
            match store.find_event(p.killmail_id) {
                Some(i) => {
                    let e = &store.events[i];
                    assert(es[i as int] == store.events@[i as int]@);
                    if !text_less(e.killmail_time.as_str(), since) {
                        let row = RawHistory {
                            killmail_id: p.killmail_id,
                            character_id: p.character_id,
                            corporation_id: p.corporation_id,
                            alliance_id: p.alliance_id,
                            ship_type_id: p.ship_type_id,
                            damage: p.damage,
                            is_victim: p.is_victim,
                            solar_system_id: e.solar_system_id,
                            killmail_time: e.killmail_time.clone(),
                        };
                        let ghost before = rows@;
                        rows.push(row);
                        assert(rows@.map_values(|x: RawHistory| x@) =~= before.map_values(
                            |x: RawHistory| x@,
                        ).push(row@));
                    }
                },
                None => {},
            }
        }
        j += 1;
    }
    assert(ps.take(ps.len() as int) =~= ps);
    rows
}

/// Whether `v` holds `x`.
fn holds(v: &Vec<i32>, x: i32) -> (r: bool)
    ensures
        r == v@.contains(x),
{
    let mut i: usize = 0;
    while i < v.len()
        invariant
            i <= v@.len(),
            forall|t: int| 0 <= t < i ==> v@[t] != x,
        decreases v@.len() - i,
    {
        if v[i] == x {
            return true;
        }
        i += 1;
    }
    false
}

/// Whether the event `kid` is stored with a timestamp not before `since`.
fn window_holds(store: &Store, kid: i32, since: &str) -> (r: bool)
    ensures
        r == in_window(store.events(), kid, since@),
{
    match store.find_event(kid) {
        Some(i) => {
            assert(store.events()[i as int] == store.events@[i as int]@);
            !text_less(store.events[i].killmail_time.as_str(), since)
        },
        None => false,
    }
}

/// The distinct events that seed a relation of subject `id`.
fn seed_events(store: &Store, id: i32, sbj: QuerySubject, victim: bool, since: &str) -> (r: Vec<
    i32,
>)
    ensures
        forall|kid: i32|
            r@.contains(kid) <==> is_seed(
                store.events(),
                store.parts(),
                id,
                sbj,
                victim,
                since@,
                kid,
            ),
{
    let ghost es = store.events();
    let ghost ps = store.parts();
    let mut seeds: Vec<i32> = Vec::new();
    let mut j: usize = 0;
    while j < store.participants.len()
        invariant
            es == store.events(),
            ps == store.parts(),
            ps == store.participants@,
            j <= ps.len(),
            forall|kid: i32|
                seeds@.contains(kid) <==> is_seed(es, ps.take(j as int), id, sbj, victim, since@, kid),
        decreases ps.len() - j,
    {
        let p = store.participants[j];
        let pick = matches_subject(&p, sbj, id) && p.is_victim == victim && window_holds(
            store,
            p.killmail_id,
            since,
        );
        let ghost before = seeds@;
        let ghost prev = ps.take(j as int);
        let ghost next = ps.take(j + 1);
        let ghost mut pushed = false;
        if pick {
            if !holds(&seeds, p.killmail_id) {
                seeds.push(p.killmail_id);
                proof {
                    pushed = true;
                }
            }
        }
        assert(pushed ==> seeds@ == before.push(p.killmail_id));
        assert(!pushed ==> seeds@ == before);
        assert(pick && !pushed ==> before.contains(p.killmail_id));
        assert(next[j as int] == p);
        assert(pushed ==> pick);
        if pick {
            assert(seeds_event(next[j as int], p.killmail_id, id, sbj, victim));
            assert(is_seed(es, next, id, sbj, victim, since@, p.killmail_id));
        }
        assert forall|kid: i32|
            seeds@.contains(kid) <==> is_seed(es, next, id, sbj, victim, since@, kid) by {
            if is_seed(es, prev, id, sbj, victim, since@, kid) {
                let t = choose|t: int|
                    0 <= t < prev.len() && #[trigger] seeds_event(prev[t], kid, id, sbj, victim);
                assert(next[t] == prev[t]);
                assert(seeds_event(next[t], kid, id, sbj, victim));
            }
            if is_seed(es, next, id, sbj, victim, since@, kid) {
                let t = choose|t: int|
                    0 <= t < next.len() && #[trigger] seeds_event(next[t], kid, id, sbj, victim);
                if t < j {
                    assert(prev[t] == next[t]);
                    assert(seeds_event(prev[t], kid, id, sbj, victim));
                    assert(is_seed(es, prev, id, sbj, victim, since@, kid));
                } else {
                    assert(pick);
                    assert(kid == p.killmail_id);
                }
            }
            if pushed {
                if kid == p.killmail_id {
                    assert(seeds@[before.len() as int] == kid);
                }
                if before.contains(kid) {
                    let t = choose|t: int| 0 <= t < before.len() && before[t] == kid;
                    assert(seeds@[t] == kid);
                }
                if seeds@.contains(kid) {
                    let t = choose|t: int| 0 <= t < seeds@.len() && seeds@[t] == kid;
                    if t < before.len() {
                        assert(before[t] == kid);
                    }
                }
            }
        }
        j += 1;
    }
    assert(ps.take(ps.len() as int) =~= ps);
    seeds
}

/// The friends or enemies of subject `id` with their counts: every
/// participant row of the seed events (those in the window where the subject
/// attacked, for friends, or died, for enemies) is counted under its
/// identifier of the relation's grouping, leaving out the subject's own id
/// and the unidentified 0.
pub fn relations(store: &Store, id: i32, sbj: QuerySubject, rel: RelationType, since: &str) -> (r:
    Vec<RawRelation>)
    ensures
        is_tally(r@),
        forall|k: i32|
            tally(r@, k) == relation_count(
                store.events(),
                store.parts(),
                store.parts(),
                id,
                sbj,
                rel,
                since@,
                k,
            ),
        forall|j: int| 0 <= j < r@.len() ==> (#[trigger] r@[j]).0 != id && r@[j].0 != 0,
{
    proof {
        use_type_invariant(store);
    }
    let ghost es = store.events();
    let ghost ps = store.parts();
    let victim = RelationType::get_victim_value(&rel) == 1;
    let target = RelationType::target(&rel);
    let seeds = seed_events(store, id, sbj, victim, since);
    let mut res: Vec<RawRelation> = Vec::new();
    let mut j: usize = 0;
    while j < store.participants.len()
        invariant
            es == store.events(),
            ps == store.parts(),
            ps == store.participants@,
            j <= ps.len(),
            victim == seeds_from_victim(rel),
            target == target_of(rel),
            forall|kid: i32|
                seeds@.contains(kid) <==> is_seed(es, ps, id, sbj, victim, since@, kid),
            is_tally(res@),
            forall|k: i32|
                tally(res@, k) == relation_count(es, ps, ps.take(j as int), id, sbj, rel, since@, k),
            forall|t: int| 0 <= t < res@.len() ==> (#[trigger] res@[t]).0 != id && res@[t].0 != 0,
        decreases ps.len() - j,
    {
        let q = store.participants[j];
        let ghost before = res@;
        assert(ps.take(j + 1).drop_last() =~= ps.take(j as int));
        if holds(&seeds, q.killmail_id) {
            match field_of(&q, target) {
                Some(k) => {
                    if k != id && k != 0 {
                        proof {
                            lemma_relation_count_bound(es, ps, ps.take(j as int), id, sbj, rel, since@, k);
                        }
                        bump(&mut res, k);
                    }
                },
                None => {},
            }
        }
        assert forall|k: i32|
            tally(res@, k) == relation_count(es, ps, ps.take(j + 1), id, sbj, rel, since@, k) by {
            assert(ps.take(j + 1).last() == q);
        }
        j += 1;
    }
    assert(ps.take(ps.len() as int) =~= ps);
    res
}

/// How many times subject `id` took part in events of the window, by hour
/// of day of the event; hours without participation are not listed.
pub fn activity(store: &Store, id: i32, sbj: QuerySubject, since: &str) -> (r: Vec<RawRelation>)
    ensures
        is_tally(r@),
        forall|h: i32| tally(r@, h) == activity_count(store.events(), store.parts(), id, sbj, since@, h),
        forall|j: int| 0 <= j < r@.len() ==> 0 <= (#[trigger] r@[j]).0 < 24,
{
    proof {
        use_type_invariant(store);
    }
    let ghost es = store.events();
    let ghost ps = store.parts();
    let mut res: Vec<RawRelation> = Vec::new();
    let mut j: usize = 0;
    while j < store.participants.len()
        invariant
            es == store.events(),
            ps == store.parts(),
            ps == store.participants@,
            times_valid(es),
            j <= ps.len(),
            is_tally(res@),
            forall|h: i32| tally(res@, h) == activity_count(es, ps.take(j as int), id, sbj, since@, h),
            forall|t: int| 0 <= t < res@.len() ==> 0 <= (#[trigger] res@[t]).0 < 24,
        decreases ps.len() - j,
    {
        let p = store.participants[j];
        assert(ps.take(j + 1).drop_last() =~= ps.take(j as int));
        assert(ps.take(j + 1).last() == p);
        if matches_subject(&p, sbj, id) {
            match store.find_event(p.killmail_id) {
                Some(i) => {
                    let e = &store.events[i];
                    assert(es[i as int] == store.events@[i as int]@);
                    if !text_less(e.killmail_time.as_str(), since) {
                        let h = hour_of_text(e.killmail_time.as_str());
                        proof {
                            lemma_activity_count_bound(es, ps.take(j as int), id, sbj, since@, h);
                        }
                        bump(&mut res, h);
                    }
                },
                None => {},
            }
        }
        j += 1;
    }
    assert(ps.take(ps.len() as int) =~= ps);
    res
}

/// The retention sweep: deletes the participants of the events whose
/// timestamp is before `horizon`, then those events.  Returns the ids of the
/// deleted events.
pub fn cleanup(store: &mut Store, horizon: &str) -> (removed: Vec<i32>)
    ensures
        final(store).wf(),
        final(store).events() == kept_events(old(store).events(), horizon@),
        final(store).parts() == kept_parts(old(store).events(), old(store).parts(), horizon@),
        removed@ == removed_ids(old(store).events(), horizon@),
{
    proof {
        use_type_invariant(&*store);
    }
    let ghost es = store.events();
    let ghost ps = store.parts();
    let mut parts: Vec<ParticipantRow> = Vec::new();
    let mut j: usize = 0;
    while j < store.participants.len()
        invariant
            es == store.events(),
            ps == store.parts(),
            ps == store.participants@,
            j <= ps.len(),
            parts@ == kept_parts(es, ps.take(j as int), horizon@),
        decreases ps.len() - j,
    {
        let p = store.participants[j];
        assert(ps.take(j + 1).drop_last() =~= ps.take(j as int));
        assert(ps.take(j + 1).last() == p);
        if window_holds(store, p.killmail_id, horizon) {
            parts.push(p);
        }
        j += 1;
    }
    assert(ps.take(ps.len() as int) =~= ps);
    let mut events: Vec<EventRow> = Vec::new();
    let mut removed: Vec<i32> = Vec::new();
    let mut i: usize = 0;
    assert(events@.map_values(|e: EventRow| e@) =~= kept_events(es.take(0), horizon@));
    while i < store.events.len()
        invariant
            es == store.events(),
            i <= es.len(),
            events@.map_values(|e: EventRow| e@) == kept_events(es.take(i as int), horizon@),
            removed@ == removed_ids(es.take(i as int), horizon@),
        decreases es.len() - i,
    {
        let e = &store.events[i];
        assert(es[i as int] == e@);
        assert(es.take(i + 1).drop_last() =~= es.take(i as int));
        assert(es.take(i + 1).last() == e@);
        if !text_less(e.killmail_time.as_str(), horizon) {
            let kept = EventRow {
                killmail_id: e.killmail_id,
                killmail_time: e.killmail_time.clone(),
                solar_system_id: e.solar_system_id,
            };
            let ghost before = events@;
            events.push(kept);
            assert(events@.map_values(|e: EventRow| e@) =~= before.map_values(|e: EventRow| e@).push(
                kept@,
            ));
        } else {
            removed.push(e.killmail_id);
        }
        i += 1;
    }
    assert(es.take(es.len() as int) =~= es);
    proof {
        lemma_cleanup_wf(es, ps, horizon@);
    }
    *store = Store { events, participants: parts };
    removed
}

/// The ids of the events whose timestamp lies in the half-open range from
/// `from` to `to`, in order of insertion.
pub fn select_ids_between(store: &Store, from: &str, to: &str) -> (r: Vec<i32>)
    ensures
        r@ == ids_between(store.events(), from@, to@),
{
    let ghost es = store.events();
    let mut ids: Vec<i32> = Vec::new();
    let mut i: usize = 0;
    while i < store.events.len()
        invariant
            es == store.events(),
            i <= es.len(),
            ids@ == ids_between(es.take(i as int), from@, to@),
        decreases es.len() - i,
    {
        let e = &store.events[i];
        assert(es[i as int] == e@);
        assert(es.take(i + 1).drop_last() =~= es.take(i as int));
        assert(es.take(i + 1).last() == e@);
        let t = e.killmail_time.as_str();
        if !text_less(t, from) && text_less(t, to) {
            ids.push(e.killmail_id);
        }
        i += 1;
    }
    assert(es.take(es.len() as int) =~= es);
    ids
}

/// The ids of the events of calendar day `day` (UTC), in order of
/// insertion.  Fails when the day's bounds cannot be written as timestamps.
pub fn select_ids_by_date(store: &Store, day: &Day) -> (r: Result<Vec<i32>, StoreError>)
    ensures
        match r {
            Ok(ids) => {
                &&& day.start <= i64::MAX - 86400
                &&& ids@ == ids_between(
                    store.events(),
                    utc_text_of(day.start as int),
                    utc_text_of(day.start + 86400),
                )
            },
            Err(e) => e is InvalidParameter,
        },
        MIN_UTC_SECS <= day.start && day.start + 86400 <= MAX_UTC_SECS ==> r is Ok,
{
    if day.start > i64::MAX - 86400 {
        return Err(StoreError::InvalidParameter(String::from_str("day out of range")));
    }
    match (utc_text(day.start), utc_text(day.start + 86400)) {
        (Some(from), Some(to)) => Ok(select_ids_between(store, from.as_str(), to.as_str())),
        _ => Err(StoreError::InvalidParameter(String::from_str("day out of range"))),
    }
}

} // verus!

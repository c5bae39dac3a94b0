//! What the query service reports: status messages, access statistics, the
//! win/loss summary of a subject's history and its hourly histogram.
use std::collections::HashMap;

use vstd::prelude::*;

use crate::database::{activity, activity_count, QuerySubject, RawHistory, RawRelation, Store};
use crate::tally::{is_tally, lemma_tally_absent, lemma_tally_entry, tally};

verus! {

broadcast use vstd::std_specs::hash::group_hash_axioms;

/// The counters the service keeps.
#[derive(Debug, Clone, Copy, PartialEq, Eq, Hash)]
pub enum StatType {
    SavedKillmailsCount,
    StatisticAccessedCount,
    SelectKillmailsByDateCount,
    ActivityCount,
    ActivityHourlyCount,
    FriendsCharacterCount,
    FriendsCorporationCount,
    FriendsAllianceCount,
    EnemiesCharacterCount,
    EnemiesCorporationCount,
    EnemiesAllianceCount,
    CharacterActivityCount,
    CorporationActivityCount,
    AllianceActivityCount,
}

/// The number of counters.
pub const STAT_TYPES: usize = 14;

/// The slot of a counter.
pub open spec fn stat_slot(st: StatType) -> int {
    match st {
        StatType::SavedKillmailsCount => 0,
        StatType::StatisticAccessedCount => 1,
        StatType::SelectKillmailsByDateCount => 2,
        StatType::ActivityCount => 3,
        StatType::ActivityHourlyCount => 4,
        StatType::FriendsCharacterCount => 5,
        StatType::FriendsCorporationCount => 6,
        StatType::FriendsAllianceCount => 7,
        StatType::EnemiesCharacterCount => 8,
        StatType::EnemiesCorporationCount => 9,
        StatType::EnemiesAllianceCount => 10,
        StatType::CharacterActivityCount => 11,
        StatType::CorporationActivityCount => 12,
        StatType::AllianceActivityCount => 13,
    }
}

impl StatType {
    /// The slot of this counter.
    pub fn slot(&self) -> (r: usize)
        ensures
            r == stat_slot(*self),
            r < STAT_TYPES,
    {
        match self {
            StatType::SavedKillmailsCount => 0,
            StatType::StatisticAccessedCount => 1,
            StatType::SelectKillmailsByDateCount => 2,
            StatType::ActivityCount => 3,
            StatType::ActivityHourlyCount => 4,
            StatType::FriendsCharacterCount => 5,
            StatType::FriendsCorporationCount => 6,
            StatType::FriendsAllianceCount => 7,
            StatType::EnemiesCharacterCount => 8,
            StatType::EnemiesCorporationCount => 9,
            StatType::EnemiesAllianceCount => 10,
            StatType::CharacterActivityCount => 11,
            StatType::CorporationActivityCount => 12,
            StatType::AllianceActivityCount => 13,
        }
    }
}

/// `n + 1`, held at the largest count.
pub open spec fn count_up(n: usize) -> usize {
    if n < usize::MAX {
        (n + 1) as usize
    } else {
        n
    }
}

/// How often each request was served: overall, and per subject kind.
#[derive(Debug, Clone)]
pub struct Stat {
    access_count: [usize; 14],
    character: [usize; 14],
    corporation: [usize; 14],
    alliance: [usize; 14],
}

impl Stat {
    pub closed spec fn access_view(&self) -> Seq<usize> {
        self.access_count@
    }

    /// The counters of one subject kind.
    pub closed spec fn subject_view(&self, subj: QuerySubject) -> Seq<usize> {
        match subj {
            QuerySubject::Character => self.character@,
            QuerySubject::Corporation => self.corporation@,
            QuerySubject::Alliance => self.alliance@,
        }
    }

    /// All counters at zero.
    pub fn new() -> (r: Stat)
        ensures
            r.access_view() == Seq::new(14, |i: int| 0usize),
            forall|s: QuerySubject| r.subject_view(s) == Seq::new(14, |i: int| 0usize),
    {
        let r = Stat { access_count: [0; 14], character: [0; 14], corporation: [0; 14], alliance: [0; 14] };
        assert(r.access_view() =~= Seq::new(14, |i: int| 0usize));
        assert forall|s: QuerySubject| r.subject_view(s) == Seq::new(14, |i: int| 0usize) by {
            assert(r.subject_view(s) =~= Seq::new(14, |i: int| 0usize));
        }
        r
    }

    /// Counts one access of kind `id`.
    pub fn notify_access(&mut self, id: StatType)
        ensures
            final(self).access_view() == old(self).access_view().update(
                stat_slot(id),
                count_up(old(self).access_view()[stat_slot(id)]),
            ),
            forall|s: QuerySubject| final(self).subject_view(s) == old(self).subject_view(s),
    {
        let i = id.slot();
        let n = self.access_count[i];
        self.access_count[i] = if n < usize::MAX { n + 1 } else { n };
    }

    /// Counts one request of kind `st` about a subject of kind `subj`.
    pub fn notify(&mut self, subj: QuerySubject, st: StatType)
        ensures
            final(self).access_view() == old(self).access_view(),
            final(self).subject_view(subj) == old(self).subject_view(subj).update(
                stat_slot(st),
                count_up(old(self).subject_view(subj)[stat_slot(st)]),
            ),
            forall|s: QuerySubject| s != subj ==> final(self).subject_view(s) == old(self).subject_view(s),
    {
        let i = st.slot();
        match subj {
            QuerySubject::Character => {
                let n = self.character[i];
                self.character[i] = if n < usize::MAX { n + 1 } else { n };
            },
            QuerySubject::Corporation => {
                let n = self.corporation[i];
                self.corporation[i] = if n < usize::MAX { n + 1 } else { n };
            },
            QuerySubject::Alliance => {
                let n = self.alliance[i];
                self.alliance[i] = if n < usize::MAX { n + 1 } else { n };
            },
        }
    }

    /// How often requests of kind `id` were served.
    pub fn access_count(&self, id: StatType) -> (r: usize)
        ensures
            r == self.access_view()[stat_slot(id)],
    {
        self.access_count[id.slot()]
    }

    /// How often requests of kind `st` about subjects of kind `subj` were
    /// served.
    pub fn subject_count(&self, subj: QuerySubject, st: StatType) -> (r: usize)
        ensures
            r == self.subject_view(subj)[stat_slot(st)],
    {
        let i = st.slot();
        match subj {
            QuerySubject::Character => self.character[i],
            QuerySubject::Corporation => self.corporation[i],
            QuerySubject::Alliance => self.alliance[i],
        }
    }
}

/// A message for the caller.
#[derive(Debug, Clone)]
pub struct Status {
    pub message: String,
}

impl Status {
    pub fn from(message: String) -> (r: Self)
        ensures
            r.message@ == message@,
    {
        Status { message }
    }

    /// The message as a JSON object: `{ "message": "<message>" }`.
    pub fn json(message: String) -> (r: String)
        ensures
            r@ == "{ \"message\": \""@ + message@ + "\" }"@,
    {
        String::from_str("{ \"message\": \"").concat(message.as_str()).concat("\" }")
    }
}

/// The ids of the rows on one side (victim or attacker), in order.
pub open spec fn side_ids(rows: Seq<RawHistory>, victim: bool) -> Seq<i32>
    decreases rows.len(),
{
    if rows.len() == 0 {
        Seq::empty()
    } else {
        let rest = side_ids(rows.drop_last(), victim);
        if rows.last().is_victim == victim {
            rest.push(rows.last().killmail_id)
        } else {
            rest
        }
    }
}

/// The total damage of the rows on one side.
pub open spec fn side_damage(rows: Seq<RawHistory>, victim: bool) -> int
    decreases rows.len(),
{
    if rows.len() == 0 {
        0
    } else {
        side_damage(rows.drop_last(), victim) + if rows.last().is_victim == victim {
            rows.last().damage as int
        } else {
            0
        }
    }
}

/// How many rows on one side flew ship type `ship`.
pub open spec fn ship_count(rows: Seq<RawHistory>, victim: bool, ship: i32) -> nat
    decreases rows.len(),
{
    if rows.len() == 0 {
        0
    } else {
        ship_count(rows.drop_last(), victim, ship) + if rows.last().is_victim == victim
            && rows.last().ship_type_id == Some(ship) {
            1nat
        } else {
            0nat
        }
    }
}

/// How many rows on one side happened in solar system `system`.
pub open spec fn system_count(rows: Seq<RawHistory>, victim: bool, system: i32) -> nat
    decreases rows.len(),
{
    if rows.len() == 0 {
        0
    } else {
        system_count(rows.drop_last(), victim, system) + if rows.last().is_victim == victim
            && rows.last().solar_system_id == system {
            1nat
        } else {
            0nat
        }
    }
}

/// `m` holds exactly the ship types flown on one side, each with its count.
pub open spec fn holds_ship_counts(m: Map<i32, usize>, rows: Seq<RawHistory>, victim: bool) -> bool {
    forall|k: i32|
        #![trigger m.dom().contains(k)]
        #![trigger ship_count(rows, victim, k)]
        (m.contains_key(k) <==> ship_count(rows, victim, k) > 0) && (m.contains_key(k) ==> m[k]
            == ship_count(rows, victim, k))
}

/// `m` holds exactly the solar systems of one side, each with its count.
pub open spec fn holds_system_counts(m: Map<i32, usize>, rows: Seq<RawHistory>, victim: bool) -> bool {
    forall|k: i32|
        #![trigger m.dom().contains(k)]
        #![trigger system_count(rows, victim, k)]
        (m.contains_key(k) <==> system_count(rows, victim, k) > 0) && (m.contains_key(k) ==> m[k]
            == system_count(rows, victim, k))
}

/// The kills of a subject (rows where it attacked).
#[derive(Debug, Clone)]
pub struct Wins {
    pub killmails: Vec<i32>,
    pub total_damage: i64,
    pub ships: HashMap<i32, usize>,
    pub solar_systems: HashMap<i32, usize>,
}

/// The losses of a subject (rows where it was the victim).
#[derive(Debug, Clone)]
pub struct Losses {
    pub killmails: Vec<i32>,
    pub total_damage: i64,
    pub ships: HashMap<i32, usize>,
    pub solar_systems: HashMap<i32, usize>,
}

/// The win/loss summary of a subject.
#[derive(Debug, Clone)]
pub struct Activity {
    pub id: i32,
    pub wins: Wins,
    pub losses: Losses,
}

/// Counts one more `k` in `m`.
fn count_into(m: &mut HashMap<i32, usize>, k: i32)
    requires
        old(m)@.contains_key(k) ==> old(m)@[k] < usize::MAX,
    ensures
        final(m)@ == old(m)@.insert(
            k,
            if old(m)@.contains_key(k) {
                (old(m)@[k] + 1) as usize
            } else {
                1usize
            },
        ),
{
    let c: usize = match m.get(&k) {
        Some(c) => *c,
        None => 0,
    };
    m.insert(k, c + 1);
}

/// The ids, total damage, ship counts and system counts of one side.
fn summarize_side(rows: &Vec<RawHistory>, victim: bool) -> (r: (
    Vec<i32>,
    i64,
    HashMap<i32, usize>,
    HashMap<i32, usize>,
))
    requires
        rows@.len() <= u32::MAX,
    ensures
        r.0@ == side_ids(rows@, victim),
        r.1 == side_damage(rows@, victim),
        holds_ship_counts(r.2@, rows@, victim),
        holds_system_counts(r.3@, rows@, victim),
{
    let ghost all = rows@;
    let mut ids: Vec<i32> = Vec::new();
    let mut damage: i64 = 0;
    let mut ships: HashMap<i32, usize> = HashMap::new();
    let mut systems: HashMap<i32, usize> = HashMap::new();
    let mut j: usize = 0;
    while j < rows.len()
        invariant
            all == rows@,
            all.len() <= u32::MAX,
            j <= all.len(),
            ids@ == side_ids(all.take(j as int), victim),
            damage == side_damage(all.take(j as int), victim),
            -(j as int) * 2147483648 <= damage <= (j as int) * 2147483647,
            holds_ship_counts(ships@, all.take(j as int), victim),
            holds_system_counts(systems@, all.take(j as int), victim),
            forall|s: i32| ship_count(all.take(j as int), victim, s) <= j,
            forall|s: i32| system_count(all.take(j as int), victim, s) <= j,
        decreases all.len() - j,
    {
        let row = &rows[j];
        let ghost prev = all.take(j as int);
        let ghost next = all.take(j + 1);
        assert(next.drop_last() =~= prev);
        assert(next.last() == *row);
        let ghost old_ships = ships@;
        let ghost old_systems = systems@;
        assert(holds_ship_counts(old_ships, prev, victim));
        assert(holds_system_counts(old_systems, prev, victim));
        if row.is_victim == victim {
            ids.push(row.killmail_id);
            proof {
                let jj = j as int;
                let d = row.damage as int;
                assert(-(jj + 1) * 2147483648 <= damage + d <= (jj + 1) * 2147483647) by (nonlinear_arith)
                    requires
                        -jj * 2147483648 <= damage <= jj * 2147483647,
                        -2147483648 <= d <= 2147483647,
                ;
                assert((jj + 1) * 2147483647 <= 4294967296 * 2147483647) by (nonlinear_arith)
                    requires
                        jj + 1 <= 4294967296,
                ;
            }
            damage = damage + row.damage as i64;
            match row.ship_type_id {
                Some(ship) => count_into(&mut ships, ship),
                None => {},
            }
            count_into(&mut systems, row.solar_system_id);
        } else {
            proof {
                let jj = j as int;
                assert(-(jj + 1) * 2147483648 <= damage <= (jj + 1) * 2147483647) by (nonlinear_arith)
                    requires
                        -jj * 2147483648 <= damage <= jj * 2147483647,
                ;
            }
        }
        assert forall|k: i32|
            (ships@.contains_key(k) <==> ship_count(next, victim, k) > 0) && (ships@.contains_key(k)
                ==> ships@[k] == ship_count(next, victim, k)) && ship_count(next, victim, k) <= j + 1 by {
            assert(ship_count(next, victim, k) == ship_count(prev, victim, k) + if row.is_victim
                == victim && row.ship_type_id == Some(k) {
                1nat
            } else {
                0nat
            });
            assert(ship_count(prev, victim, k) <= j);
            assert(old_ships.contains_key(k) <==> ship_count(prev, victim, k) > 0);
        }
        assert forall|k: i32|
            (systems@.contains_key(k) <==> system_count(next, victim, k) > 0) && (
            systems@.contains_key(k) ==> systems@[k] == system_count(next, victim, k))
                && system_count(next, victim, k) <= j + 1 by {
            assert(system_count(next, victim, k) == system_count(prev, victim, k) + if row.is_victim
                == victim && row.solar_system_id == k {
                1nat
            } else {
                0nat
            });
            assert(system_count(prev, victim, k) <= j);
            assert(old_systems.contains_key(k) <==> system_count(prev, victim, k) > 0);
        }
        j += 1;
    }
    assert(all.take(all.len() as int) =~= all);
    (ids, damage, ships, systems)
}

impl Activity {
    /// Splits a subject's history rows into wins (it attacked) and losses
    /// (it was the victim), each with its killmail ids in order, its total
    /// damage, and how often each ship type and solar system occurs.
    pub fn from(id: i32, rows: Vec<RawHistory>) -> (r: Self)
        requires
            rows@.len() <= u32::MAX,
        ensures
            r.id == id,
            r.wins.killmails@ == side_ids(rows@, false),
            r.wins.total_damage == side_damage(rows@, false),
            holds_ship_counts(r.wins.ships@, rows@, false),
            holds_system_counts(r.wins.solar_systems@, rows@, false),
            r.losses.killmails@ == side_ids(rows@, true),
            r.losses.total_damage == side_damage(rows@, true),
            holds_ship_counts(r.losses.ships@, rows@, true),
            holds_system_counts(r.losses.solar_systems@, rows@, true),
    {
        let (killmails, total_damage, ships, solar_systems) = summarize_side(&rows, false);
        let wins = Wins { killmails, total_damage, ships, solar_systems };
        let (killmails, total_damage, ships, solar_systems) = summarize_side(&rows, true);
        let losses = Losses { killmails, total_damage, ships, solar_systems };
        Activity { id, wins, losses }
    }
}

/// The count `raw` holds for `k`.
fn count_of(raw: &Vec<RawRelation>, k: i32) -> (r: usize)
    requires
        is_tally(raw@),
    ensures
        r == tally(raw@, k),
{
    let mut i: usize = 0;
    while i < raw.len()
        invariant
            is_tally(raw@),
            i <= raw@.len(),
            forall|t: int| 0 <= t < i ==> (#[trigger] raw@[t]).0 != k,
        decreases raw@.len() - i,
    {
        if raw[i].0 == k {
            proof {
                lemma_tally_entry(raw@, i as int);
            }
            return raw[i].1;
        }
        i += 1;
    }
    proof {
        lemma_tally_absent(raw@, k);
    }
    0
}

/// One entry per hour of day, in order, with the count `raw` holds for that
/// hour, or zero.
fn densify(raw: &Vec<RawRelation>) -> (r: Vec<RawRelation>)
    requires
        is_tally(raw@),
    ensures
        r@.len() == 24,
        forall|h: int| 0 <= h < 24 ==> (#[trigger] r@[h]).0 == h && r@[h].1 == tally(raw@, h as i32),
{
    let mut dense: Vec<RawRelation> = Vec::new();
    let mut h: i32 = 0;
    while h < 24
        invariant
            0 <= h <= 24,
            is_tally(raw@),
            dense@.len() == h,
            forall|t: int| 0 <= t < h ==> (#[trigger] dense@[t]).0 == t && dense@[t].1 == tally(raw@, t as i32),
        decreases 24 - h,
    {
        let count = count_of(raw, h);
        dense.push((h, count));
        h += 1;
    }
    dense
}

/// The hourly histogram of subject `id` over the window that starts at
/// `since`, made dense: one entry per hour of day, in order, with zero for
/// the hours without participation.
pub fn activity_hourly(store: &Store, id: i32, sbj: QuerySubject, since: &str) -> (r: Vec<RawRelation>)
    ensures
        r@.len() == 24,
        forall|h: int|
            0 <= h < 24 ==> (#[trigger] r@[h]).0 == h && r@[h].1 == activity_count(
                store.events(),
                store.parts(),
                id,
                sbj,
                since@,
                h as i32,
            ),
{
    let raw = activity(store, id, sbj, since);
    densify(&raw)
}

} // verus!

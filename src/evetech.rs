//! Lookups over the answers of the game's public API: search categories,
//! search results, and names resolved by id.
use vstd::prelude::*;

verus! {

/// The kinds of thing a name or an id can denote.
#[derive(Debug, Clone, Copy, PartialEq, Eq, Hash, Structural)]
pub enum SearchCategory {
    Agent,
    Alliance,
    Character,
    Constellation,
    Corporation,
    Faction,
    InventoryType,
    Region,
    SolarSystem,
    Station,
}

/// The name the API gives a category.
pub open spec fn category_text(c: SearchCategory) -> Seq<char> {
    match c {
        SearchCategory::Agent => "agent"@,
        SearchCategory::Alliance => "alliance"@,
        SearchCategory::Character => "character"@,
        SearchCategory::Constellation => "constellation"@,
        SearchCategory::Corporation => "corporation"@,
        SearchCategory::Faction => "faction"@,
        SearchCategory::InventoryType => "inventory_type"@,
        SearchCategory::Region => "region"@,
        SearchCategory::SolarSystem => "solar_system"@,
        SearchCategory::Station => "station"@,
    }
}

/// Whether two texts are equal.
pub fn same_text(a: &str, b: &str) -> (r: bool)
    ensures
        r == (a@ == b@),
{
    let la = a.unicode_len();
    let lb = b.unicode_len();
    if la != lb {
        return false;
    }
    let mut i: usize = 0;
    while i < la
        invariant
            la == a@.len(),
            lb == b@.len(),
            la == lb,
            i <= la,
            forall|t: int| 0 <= t < i ==> a@[t] == b@[t],
        decreases la - i,
    {
        if a.get_char(i) != b.get_char(i) {
            return false;
        }
        i += 1;
    }
    assert(a@ =~= b@);
    true
}

impl SearchCategory {
    /// The name the API gives a category.
    pub fn category(category: &SearchCategory) -> (r: &'static str)
        ensures
            r@ == category_text(*category),
    {
        match category {
            SearchCategory::Agent => "agent",
            SearchCategory::Alliance => "alliance",
            SearchCategory::Character => "character",
            SearchCategory::Constellation => "constellation",
            SearchCategory::Corporation => "corporation",
            SearchCategory::Faction => "faction",
            SearchCategory::InventoryType => "inventory_type",
            SearchCategory::Region => "region",
            SearchCategory::SolarSystem => "solar_system",
            SearchCategory::Station => "station",
        }
    }

    /// The category the API names `category`, if any.
    pub fn from(category: &str) -> (r: Option<SearchCategory>)
        ensures
            match r {
                Some(c) => category_text(c) == category@,
                None => forall|c: SearchCategory| category_text(c) != category@,
            },
            r == parsed_category(category@),
    {
        let all = [
            SearchCategory::Agent,
            SearchCategory::Alliance,
            SearchCategory::Character,
            SearchCategory::Constellation,
            SearchCategory::Corporation,
            SearchCategory::Faction,
            SearchCategory::InventoryType,
            SearchCategory::Region,
            SearchCategory::SolarSystem,
            SearchCategory::Station,
        ];
        let mut i: usize = 0;
        while i < 10
            invariant
                i <= 10,
                all@ == seq![
                    SearchCategory::Agent,
                    SearchCategory::Alliance,
                    SearchCategory::Character,
                    SearchCategory::Constellation,
                    SearchCategory::Corporation,
                    SearchCategory::Faction,
                    SearchCategory::InventoryType,
                    SearchCategory::Region,
                    SearchCategory::SolarSystem,
                    SearchCategory::Station,
                ],
                forall|t: int| 0 <= t < i ==> category_text(#[trigger] all@[t]) != category@,
            decreases 10 - i,
        {
            let c = all[i];
            if same_text(SearchCategory::category(&c), category) {
                proof {
                    let d = choose|d: SearchCategory| category_text(d) == category@;
                    lemma_category_text_injective(c, d);
                }
                return Some(c);
            }
            i += 1;
        }
        assert forall|c: SearchCategory| category_text(c) != category@ by {
            match c {
                SearchCategory::Agent => assert(all@[0] == c),
                SearchCategory::Alliance => assert(all@[1] == c),
                SearchCategory::Character => assert(all@[2] == c),
                SearchCategory::Constellation => assert(all@[3] == c),
                SearchCategory::Corporation => assert(all@[4] == c),
                SearchCategory::Faction => assert(all@[5] == c),
                SearchCategory::InventoryType => assert(all@[6] == c),
                SearchCategory::Region => assert(all@[7] == c),
                SearchCategory::SolarSystem => assert(all@[8] == c),
                SearchCategory::Station => assert(all@[9] == c),
            }
        }
        None
    }
}

/// Why a lookup over API answers failed.
#[derive(Debug, Clone)]
pub enum EveError {
    /// The API named a category this library does not know; the text is
    /// that name.
    NotACategory(String),
    /// No name of this category is known.
    CategoryNotFound(SearchCategory),
    /// No name is known for this id in this category.
    IdNotFound(SearchCategory, i32),
    /// A search found nothing of this category.
    NotFound(SearchCategory),
}

/// A thing the API found: its id and its name.
#[derive(Debug, Clone)]
pub struct EveItem {
    pub id: i32,
    pub name: String,
}

/// What a search by name found, by category.
#[derive(Debug, Clone)]
pub struct SearchResult {
    pub agents: Option<Vec<EveItem>>,
    pub alliances: Option<Vec<EveItem>>,
    pub characters: Option<Vec<EveItem>>,
    pub constellations: Option<Vec<EveItem>>,
    pub corporations: Option<Vec<EveItem>>,
    pub factions: Option<Vec<EveItem>>,
    pub inventory_types: Option<Vec<EveItem>>,
    pub regions: Option<Vec<EveItem>>,
    pub systems: Option<Vec<EveItem>>,
    pub stations: Option<Vec<EveItem>>,
}

/// The id of the first item of a list, if the list is there and not empty.
pub open spec fn first_id(items: Option<Vec<EveItem>>) -> Option<i32> {
    match items {
        Some(v) => if v@.len() > 0 {
            Some(v@[0].id)
        } else {
            None
        },
        None => None,
    }
}

/// The id of the first item of a list.
fn first_item_id(items: &Option<Vec<EveItem>>) -> (r: Option<i32>)
    ensures
        r == first_id(*items),
{
    match items {
        Some(v) => if v.len() > 0 {
            Some(v[0].id)
        } else {
            None
        },
        None => None,
    }
}

impl SearchResult {
    /// The id of the first character found.
    pub fn get_character_id(&self) -> (r: Result<i32, EveError>)
        ensures
            match first_id(self.characters) {
                Some(id) => r matches Ok(x) && x == id,
                None => r matches Err(EveError::NotFound(c)) && c == SearchCategory::Character,
            },
    {
        match first_item_id(&self.characters) {
            Some(id) => Ok(id),
            None => Err(EveError::NotFound(SearchCategory::Character)),
        }
    }

    /// The id of the first corporation found.
    pub fn get_corporation_id(&self) -> (r: Result<i32, EveError>)
        ensures
            match first_id(self.corporations) {
                Some(id) => r matches Ok(x) && x == id,
                None => r matches Err(EveError::NotFound(c)) && c == SearchCategory::Corporation,
            },
    {
        match first_item_id(&self.corporations) {
            Some(id) => Ok(id),
            None => Err(EveError::NotFound(SearchCategory::Corporation)),
        }
    }

    /// The id of the first alliance found.
    pub fn get_alliance_id(&self) -> (r: Result<i32, EveError>)
        ensures
            match first_id(self.alliances) {
                Some(id) => r matches Ok(x) && x == id,
                None => r matches Err(EveError::NotFound(c)) && c == SearchCategory::Alliance,
            },
    {
        match first_item_id(&self.alliances) {
            Some(id) => Ok(id),
            None => Err(EveError::NotFound(SearchCategory::Alliance)),
        }
    }
}

/// One answer of the names endpoint: an id, its category as the API names
/// it, and its name.
#[derive(Debug, Clone)]
pub struct RawName {
    pub category: String,
    pub id: i32,
    pub name: String,
}

/// A known name: its category, its id and the name.
#[derive(Debug, Clone)]
pub struct NameEntry {
    pub category: SearchCategory,
    pub id: i32,
    pub name: String,
}

/// Names resolved by category and id, one per pair.
#[derive(Debug, Clone)]
pub struct Names {
    values: Vec<NameEntry>,
}

/// The position of the first entry for `(c, id)`, or -1.
pub open spec fn name_pos(es: Seq<NameEntry>, c: SearchCategory, id: i32) -> int
    decreases es.len(),
{
    if es.len() == 0 {
        -1
    } else {
        let p = name_pos(es.drop_last(), c, id);
        if p >= 0 {
            p
        } else if es.last().category == c && es.last().id == id {
            es.len() - 1
        } else {
            -1
        }
    }
}

/// Some entry has category `c`.
pub open spec fn has_category(es: Seq<NameEntry>, c: SearchCategory) -> bool {
    exists|i: int| 0 <= i < es.len() && (#[trigger] es[i]).category == c
}

/// The category the API names `t`, if any.
pub open spec fn parsed_category(t: Seq<char>) -> Option<SearchCategory> {
    if exists|c: SearchCategory| category_text(c) == t {
        Some(choose|c: SearchCategory| category_text(c) == t)
    } else {
        None
    }
}

/// Distinct categories have distinct names.
pub proof fn lemma_category_text_injective(a: SearchCategory, b: SearchCategory)
    ensures
        category_text(a) == category_text(b) ==> a == b,
{
    reveal_strlit("agent");
    reveal_strlit("alliance");
    reveal_strlit("character");
    reveal_strlit("constellation");
    reveal_strlit("corporation");
    reveal_strlit("faction");
    reveal_strlit("inventory_type");
    reveal_strlit("region");
    reveal_strlit("solar_system");
    reveal_strlit("station");
    assert("agent"@.len() == 5);
    assert("alliance"@.len() == 8);
    assert("character"@.len() == 9);
    assert("constellation"@.len() == 13);
    assert("corporation"@.len() == 11);
    assert("faction"@.len() == 7 && "faction"@[0] == 'f');
    assert("inventory_type"@.len() == 14);
    assert("region"@.len() == 6);
    assert("solar_system"@.len() == 12);
    assert("station"@.len() == 7 && "station"@[0] == 's');
    if category_text(a) == category_text(b) {
        match a {
            SearchCategory::Faction => assert(category_text(b)[0] == 'f'),
            SearchCategory::Station => assert(category_text(b)[0] == 's'),
            _ => {},
        }
    }
}

/// What a name entry says: its category, its id and its name.
pub open spec fn entry_view(e: NameEntry) -> (SearchCategory, i32, Seq<char>) {
    (e.category, e.id, e.name@)
}

/// Some entry is for the pair `(c, id)`.
pub open spec fn pair_known(es: Seq<(SearchCategory, i32, Seq<char>)>, c: SearchCategory, id: i32) -> bool {
    exists|i: int| 0 <= i < es.len() && (#[trigger] es[i]).0 == c && es[i].1 == id
}

/// The names the answers `raw` give, in order, the first name given for a
/// pair staying; `None` when an answer names an unknown category.
pub open spec fn names_from(raw: Seq<RawName>) -> Option<Seq<(SearchCategory, i32, Seq<char>)>>
    decreases raw.len(),
{
    if raw.len() == 0 {
        Some(Seq::empty())
    } else {
        match names_from(raw.drop_last()) {
            None => None,
            Some(es) => match parsed_category(raw.last().category@) {
                None => None,
                Some(c) => if pair_known(es, c, raw.last().id) {
                    Some(es)
                } else {
                    Some(es.push((c, raw.last().id, raw.last().name@)))
                },
            },
        }
    }
}

/// Once an answer names an unknown category, so do all longer lists.
proof fn lemma_names_from_none(raw: Seq<RawName>, n: int)
    requires
        0 <= n <= raw.len(),
        names_from(raw.take(n)) is None,
    ensures
        names_from(raw) is None,
    decreases raw.len() - n,
{
    if n < raw.len() {
        assert(raw.take(n + 1).drop_last() =~= raw.take(n));
        lemma_names_from_none(raw, n + 1);
    } else {
        assert(raw.take(n) =~= raw);
    }
}

pub proof fn lemma_name_pos(es: Seq<NameEntry>, c: SearchCategory, id: i32)
    ensures
        -1 <= name_pos(es, c, id) < es.len(),
        name_pos(es, c, id) >= 0 ==> es[name_pos(es, c, id)].category == c && es[name_pos(
            es,
            c,
            id,
        )].id == id,
        name_pos(es, c, id) == -1 ==> forall|i: int|
            0 <= i < es.len() ==> !((#[trigger] es[i]).category == c && es[i].id == id),
    decreases es.len(),
{
    if es.len() > 0 {
        lemma_name_pos(es.drop_last(), c, id);
        let p = name_pos(es.drop_last(), c, id);
        if p >= 0 {
            assert(es.drop_last()[p] == es[p]);
        }
        if name_pos(es, c, id) == -1 {
            assert forall|i: int| 0 <= i < es.len() implies !((#[trigger] es[i]).category == c
                && es[i].id == id) by {
                if i < es.len() - 1 {
                    assert(es.drop_last()[i] == es[i]);
                }
            }
        }
    }
}

impl Names {
    pub closed spec fn entries(&self) -> Seq<NameEntry> {
        self.values@
    }

    /// The known names as categories, ids and names.
    pub open spec fn view_entries(&self) -> Seq<(SearchCategory, i32, Seq<char>)> {
        self.entries().map_values(|e: NameEntry| entry_view(e))
    }

    /// The position of the entry for `(c, id)`.
    fn find(&self, c: SearchCategory, id: i32) -> (r: Option<usize>)
        ensures
            match r {
                Some(i) => i == name_pos(self.entries(), c, id),
                None => name_pos(self.entries(), c, id) == -1,
            },
    {
        let ghost es = self.entries();
        let mut i: usize = 0;
        while i < self.values.len()
            invariant
                es == self.values@,
                i <= es.len(),
                name_pos(es.take(i as int), c, id) == -1,
            decreases es.len() - i,
        {
            assert(es.take(i + 1).drop_last() =~= es.take(i as int));
            if self.values[i].category == c && self.values[i].id == id {
                proof {
                    lemma_name_pos(es, c, id);
                    lemma_name_pos(es.take(i + 1), c, id);
                    lemma_name_pos_prefix(es, (i + 1) as int, c, id);
                }
                return Some(i);
            }
            i += 1;
        }
        assert(es.take(es.len() as int) =~= es);
        None
    }

    /// Groups the answers of the names endpoint by category and id, in
    /// order; the first name given for a pair stays and later ones are
    /// dropped.  Fails on a category this library does not know.
    pub fn from_raw(raw: Vec<RawName>) -> (r: Result<Names, EveError>)
        ensures
            match r {
                Ok(n) => names_from(raw@) == Some(n.view_entries()),
                Err(e) => names_from(raw@) is None && e is NotACategory,
            },
    {
        let mut names = Names { values: Vec::new() };
        let mut j: usize = 0;
        assert(names.view_entries() =~= Seq::<(SearchCategory, i32, Seq<char>)>::empty());
        assert(raw@.take(0) =~= Seq::<RawName>::empty());
        while j < raw.len()
            invariant
                j <= raw@.len(),
                names_from(raw@.take(j as int)) == Some(names.view_entries()),
            decreases raw@.len() - j,
        {
            let item = &raw[j];
            let ghost next = raw@.take(j + 1);
            assert(next.drop_last() =~= raw@.take(j as int));
            assert(next.last() == *item);
            let c = match SearchCategory::from(item.category.as_str()) {
                Some(c) => c,
                None => {
                    proof {
                        lemma_names_from_none(raw@, j + 1);
                    }
                    return Err(EveError::NotACategory(item.category.clone()));
                },
            };
            let ghost before = names.entries();
            let ghost vb = names.view_entries();
            proof {
                lemma_name_pos(before, c, item.id);
                if name_pos(before, c, item.id) >= 0 {
                    let p = name_pos(before, c, item.id);
                    assert(vb[p] == entry_view(before[p]));
                    assert(pair_known(vb, c, item.id));
                } else {
                    assert forall|i: int| 0 <= i < vb.len() implies !((#[trigger] vb[i]).0 == c
                        && vb[i].1 == item.id) by {
                        assert(vb[i] == entry_view(before[i]));
                    }
                }
            }
            match names.find(c, item.id) {
                Some(_) => {},
                None => {
                    let entry = NameEntry { category: c, id: item.id, name: item.name.clone() };
                    names.values.push(entry);
                    assert(names.view_entries() =~= vb.push(entry_view(entry)));
                },
            }
            j += 1;
        }
        assert(raw@.take(raw@.len() as int) =~= raw@);
        Ok(names)
    }

    /// The name known for `id` in `category`.
    pub fn get_name(&self, category: SearchCategory, id: i32) -> (r: Result<String, EveError>)
        ensures
            name_pos(self.entries(), category, id) >= 0 ==> (r matches Ok(n) && n@
                == self.entries()[name_pos(self.entries(), category, id)].name@),
            name_pos(self.entries(), category, id) == -1 && has_category(self.entries(), category)
                ==> (r matches Err(EveError::IdNotFound(c, x)) && c == category && x == id),
            !has_category(self.entries(), category) ==> (r matches Err(
                EveError::CategoryNotFound(c),
            ) && c == category),
    {
        proof {
            lemma_name_pos(self.entries(), category, id);
        }
        match self.find(category, id) {
            Some(i) => Ok(self.values[i].name.clone()),
            None => {
                let mut k: usize = 0;
                while k < self.values.len()
                    invariant
                        k <= self.values@.len(),
                        name_pos(self.entries(), category, id) == -1,
                        forall|t: int| 0 <= t < k ==> (#[trigger] self.values@[t]).category != category,
                    decreases self.values@.len() - k,
                {
                    if self.values[k].category == category {
                        return Err(EveError::IdNotFound(category, id));
                    }
                    k += 1;
                }
                Err(EveError::CategoryNotFound(category))
            },
        }
    }
}

/// `name_pos` on a prefix agrees with `name_pos` on the whole once it finds.
proof fn lemma_name_pos_prefix(es: Seq<NameEntry>, n: int, c: SearchCategory, id: i32)
    requires
        0 <= n <= es.len(),
        name_pos(es.take(n), c, id) >= 0,
    ensures
        name_pos(es, c, id) == name_pos(es.take(n), c, id),
    decreases es.len() - n,
{
    if n < es.len() {
        assert(es.take(n + 1).drop_last() =~= es.take(n));
        lemma_name_pos_prefix(es, n + 1, c, id);
    } else {
        assert(es.take(n) =~= es);
    }
}

} // verus!

//! The aggregated record for a global KZ map, the aggregation that builds a
//! collection of such records from upstream listings, and fuzzy lookup over
//! the collection.

use crate::digits::{dec_rep, u64_string};
use crate::serde::NaiveDateTime;
use fuzzy_matcher::FuzzyMatcher;
use vstd::prelude::*;
use vstd::string::StringExecFns;

verus! {

broadcast use vstd::string::group_string_axioms, vstd::seq_lib::group_to_multiset_ensures;

/// The seven difficulty tiers of a global KZ map.
#[derive(Debug, Clone, Copy, PartialEq, Eq, Structural)]
pub enum Tier {
    VeryEasy,
    Easy,
    Medium,
    Hard,
    VeryHard,
    Extreme,
    Death,
}

/// The three KZ game modes.
#[derive(Debug, Clone, Copy, PartialEq, Eq, Structural)]
pub enum Mode {
    KZTimer,
    SimpleKZ,
    Vanilla,
}

/// A course of a map: its stage number and difficulty tier.
#[derive(Debug, Clone, Copy, PartialEq, Eq, Structural)]
pub struct Course {
    pub stage: u8,
    pub tier: Tier,
}

impl DeepView for Course {
    type V = Course;

    open spec fn deep_view(&self) -> Course {
        *self
    }
}

/// A mapper of a map: display name and SteamID64.
#[derive(Debug, PartialEq)]
pub struct Mapper {
    pub name: String,
    pub steam_id: u64,
}

/// The mathematical value of a [`Mapper`].
pub ghost struct MapperView {
    pub name: Seq<char>,
    pub steam_id: u64,
}

impl View for Mapper {
    type V = MapperView;

    open spec fn view(&self) -> MapperView {
        MapperView { name: self.name@, steam_id: self.steam_id }
    }
}

impl DeepView for Mapper {
    type V = MapperView;

    open spec fn deep_view(&self) -> MapperView {
        self@
    }
}

impl Clone for Mapper {
    fn clone(&self) -> (r: Self)
        ensures
            r@ == self@,
    {
        Mapper { name: self.name.clone(), steam_id: self.steam_id }
    }
}

/// A record filter: a (map, mode, stage, tickrate) combination for which a
/// time record category exists.
#[derive(Debug, Clone, Copy, PartialEq, Eq, Structural)]
pub struct RecordFilter {
    pub map_id: u16,
    pub mode: Mode,
    pub stage: u8,
    pub tickrate: u8,
}

/// A map listing entry of the `GlobalAPI`, as far as the aggregation reads
/// it: the map id and its Steam Workshop URL.
#[derive(Debug, PartialEq)]
pub struct WorkshopMap {
    pub id: u16,
    pub workshop_url: String,
}

/// The mathematical value of a [`WorkshopMap`].
pub ghost struct WorkshopMapView {
    pub id: u16,
    pub workshop_url: Seq<char>,
}

impl View for WorkshopMap {
    type V = WorkshopMapView;

    open spec fn view(&self) -> WorkshopMapView {
        WorkshopMapView { id: self.id, workshop_url: self.workshop_url@ }
    }
}

impl DeepView for WorkshopMap {
    type V = WorkshopMapView;

    open spec fn deep_view(&self) -> WorkshopMapView {
        self@
    }
}

/// A map as the upstream map listing hands it over, before aggregation.
#[derive(Debug, PartialEq)]
pub struct MapInfo {
    pub id: u16,
    pub name: String,
    pub global: bool,
    pub filesize: u32,
    pub courses: Vec<Course>,
    pub mappers: Vec<Mapper>,
    pub approved_by: Option<u64>,
    pub created_on: NaiveDateTime,
    pub updated_on: NaiveDateTime,
}

/// The mathematical value of a [`MapInfo`].
pub ghost struct MapInfoView {
    pub id: u16,
    pub name: Seq<char>,
    pub global: bool,
    pub filesize: u32,
    pub courses: Seq<Course>,
    pub mappers: Seq<MapperView>,
    pub approved_by: Option<u64>,
    pub created_on: NaiveDateTime,
    pub updated_on: NaiveDateTime,
}

impl View for MapInfo {
    type V = MapInfoView;

    open spec fn view(&self) -> MapInfoView {
        MapInfoView {
            id: self.id,
            name: self.name@,
            global: self.global,
            filesize: self.filesize,
            courses: self.courses@,
            mappers: self.mappers.deep_view(),
            approved_by: self.approved_by,
            created_on: self.created_on,
            updated_on: self.updated_on,
        }
    }
}

impl DeepView for MapInfo {
    type V = MapInfoView;

    open spec fn deep_view(&self) -> MapInfoView {
        self@
    }
}

/// Either a map's numeric id or its name.
#[derive(Debug, PartialEq)]
pub enum MapIdentifier {
    ID(u16),
    Name(String),
}

/// Information about a global KZ map.
#[derive(Debug, PartialEq)]
pub struct GlobalMap {
    pub id: u16,
    pub name: String,
    pub tier: Tier,
    pub global: bool,
    pub courses: Vec<Course>,
    /// Whether the map's main course has a KZT filter
    pub kzt: bool,
    /// Whether the map's main course has a SKZ filter
    pub skz: bool,
    /// Whether the map's main course has a VNL filter
    pub vnl: bool,
    pub mappers: Vec<Mapper>,
    pub approver_steam_id: Option<u64>,
    pub filesize: u32,
    pub created_on: NaiveDateTime,
    pub updated_on: NaiveDateTime,
    pub workshop_link: Option<String>,
}

/// The mathematical value of a [`GlobalMap`].
pub ghost struct GlobalMapView {
    pub id: u16,
    pub name: Seq<char>,
    pub tier: Tier,
    pub global: bool,
    pub courses: Seq<Course>,
    pub kzt: bool,
    pub skz: bool,
    pub vnl: bool,
    pub mappers: Seq<MapperView>,
    pub approver_steam_id: Option<u64>,
    pub filesize: u32,
    pub created_on: NaiveDateTime,
    pub updated_on: NaiveDateTime,
    pub workshop_link: Option<Seq<char>>,
}

impl View for GlobalMap {
    type V = GlobalMapView;

    open spec fn view(&self) -> GlobalMapView {
        GlobalMapView {
            id: self.id,
            name: self.name@,
            tier: self.tier,
            global: self.global,
            courses: self.courses@,
            kzt: self.kzt,
            skz: self.skz,
            vnl: self.vnl,
            mappers: self.mappers.deep_view(),
            approver_steam_id: self.approver_steam_id,
            filesize: self.filesize,
            created_on: self.created_on,
            updated_on: self.updated_on,
            workshop_link: self.workshop_link.deep_view(),
        }
    }
}

impl DeepView for GlobalMap {
    type V = GlobalMapView;

    open spec fn deep_view(&self) -> GlobalMapView {
        self@
    }
}

fn clone_courses(v: &Vec<Course>) -> (r: Vec<Course>)
    ensures
        r@ == v@,
{
    let mut r: Vec<Course> = Vec::new();
    let mut i: usize = 0;
    while i < v.len()
        invariant
            i <= v@.len(),
            r@ == v@.take(i as int),
        decreases v@.len() - i,
    {
        r.push(v[i]);
        proof {
            assert(r@ =~= v@.take(i as int + 1));
        }
        i += 1;
    }
    proof {
        assert(v@.take(v@.len() as int) =~= v@);
    }
    r
}

fn clone_mappers(v: &Vec<Mapper>) -> (r: Vec<Mapper>)
    ensures
        r.deep_view() == v.deep_view(),
{
    let mut r: Vec<Mapper> = Vec::new();
    let mut i: usize = 0;
    while i < v.len()
        invariant
            i <= v@.len(),
            r@.len() == i,
            forall|j: int| 0 <= j < i ==> r@[j]@ == #[trigger] v@[j]@,
        decreases v@.len() - i,
    {
        let m = (&v[i]).clone();
        r.push(m);
        i += 1;
    }
    proof {
        assert(r.deep_view() =~= v.deep_view());
    }
    r
}

impl Clone for GlobalMap {
    fn clone(&self) -> (r: Self)
        ensures
            r@ == self@,
    {
        let workshop_link = match &self.workshop_link {
            Some(url) => Some(url.clone()),
            None => None,
        };
        GlobalMap {
            id: self.id,
            name: self.name.clone(),
            tier: self.tier,
            global: self.global,
            courses: clone_courses(&self.courses),
            kzt: self.kzt,
            skz: self.skz,
            vnl: self.vnl,
            mappers: clone_mappers(&self.mappers),
            approver_steam_id: self.approver_steam_id,
            filesize: self.filesize,
            created_on: self.created_on,
            updated_on: self.updated_on,
            workshop_link,
        }
    }
}

/// What `SkimMatcherV2::fuzzy_match` returns for a choice and a pattern:
/// the skim fuzzy-matching score. The matcher is built by `Default`, so the
/// score depends on the two strings alone.
pub uninterp spec fn skim_score(choice: Seq<char>, pattern: Seq<char>) -> Option<int>;

/// Relies on `fuzzy_matcher::skim::SkimMatcherV2::fuzzy_match`, with the
/// `Default` configuration, to score `choice` against `pattern`.
#[verifier::external_body]
fn skim_fuzzy_match(choice: &str, pattern: &str) -> (r: Option<i64>)
    ensures
        r is Some <==> skim_score(choice@, pattern@) is Some,
        r matches Some(score) ==> skim_score(choice@, pattern@) == Some(score as int),
{
    let matcher = fuzzy_matcher::skim::SkimMatcherV2::default();
    matcher.fuzzy_match(choice, pattern)
}

/// What `str::to_lowercase` returns: the Unicode lowercase mapping of a
/// string's characters.
pub uninterp spec fn lower_of(s: Seq<char>) -> Seq<char>;

/// Relies on `str::to_lowercase`: the result depends on the characters
/// alone, and an empty string stays empty.
#[verifier::external_body]
fn lowercase(s: &str) -> (r: String)
    ensures
        r@ == lower_of(s@),
        s@.len() == 0 ==> r@.len() == 0,
{
    s.to_lowercase()
}

impl GlobalMap {
    /// A link to the map's leaderboard on KZ:GO.
    pub fn kzgo_link(&self) -> (r: String)
        ensures
            r@ == "https://kzgo.eu/maps/"@ + self.name@,
    {
        "https://kzgo.eu/maps/".to_string().concat(self.name.as_str())
    }

    /// A link to the map's thumbnail, hosted by the Global Team on GitHub.
    pub fn thumbnail(&self) -> (r: String)
        ensures
            r@ == "https://raw.githubusercontent.com/KZGlobalTeam/map-images/master/images/"@
                + self.name@ + ".jpg"@,
    {
        "https://raw.githubusercontent.com/KZGlobalTeam/map-images/master/images/"
            .to_string()
            .concat(self.name.as_str())
            .concat(".jpg")
    }

    /// Links to the mappers' Steam profiles.
    pub fn mapper_steamids(&self) -> (r: Vec<String>)
        ensures
            r@.len() == self.mappers@.len(),
            forall|i: int|
                0 <= i < r@.len() ==> r@[i]@ == "https://steamcommunity.com/profiles/"@ + dec_rep(
                    self.mappers.deep_view()[i].steam_id as nat,
                ),
    {
        let mut r: Vec<String> = Vec::new();
        let mut i: usize = 0;
        while i < self.mappers.len()
            invariant
                i <= self.mappers@.len(),
                r@.len() == i,
                forall|j: int|
                    0 <= j < i ==> r@[j]@ == "https://steamcommunity.com/profiles/"@ + dec_rep(
                        self.mappers.deep_view()[j].steam_id as nat,
                    ),
            decreases self.mappers@.len() - i,
        {
            let link = "https://steamcommunity.com/profiles/"
                .to_string()
                .concat(u64_string(self.mappers[i].steam_id).as_str());
            r.push(link);
            i += 1;
        }
        r
    }

    /// A link to the approver's Steam profile.
    pub fn approver_steam(&self) -> (r: Option<String>)
        ensures
            match self.approver_steam_id {
                Some(id) => r matches Some(s) && s@ == "https://steamcommunity.com/profiles/"@
                    + dec_rep(id as nat),
                None => r is None,
            },
    {
        match self.approver_steam_id {
            Some(id) => Some(
                "https://steamcommunity.com/profiles/".to_string().concat(u64_string(id).as_str()),
            ),
            None => None,
        }
    }
}

} // verus!

verus! {

/// Whether some record filter for `map_id` and `mode` is among `filters`.
pub open spec fn has_filter(filters: Seq<RecordFilter>, map_id: u16, mode: Mode) -> bool {
    exists|i: int|
        0 <= i < filters.len() && #[trigger] filters[i].map_id == map_id && filters[i].mode == mode
}

/// The record-filter flags of `m` say exactly whether a filter with its id
/// and the respective mode exists.
pub open spec fn flags_consistent(m: GlobalMapView, filters: Seq<RecordFilter>) -> bool {
    &&& m.kzt == has_filter(filters, m.id, Mode::KZTimer)
    &&& m.skz == has_filter(filters, m.id, Mode::SimpleKZ)
    &&& m.vnl == has_filter(filters, m.id, Mode::Vanilla)
}

fn find_filter(filters: &Vec<RecordFilter>, map_id: u16, mode: Mode) -> (r: bool)
    ensures
        r == has_filter(filters@, map_id, mode),
{
    let mut i: usize = 0;
    while i < filters.len()
        invariant
            i <= filters@.len(),
            forall|j: int|
                0 <= j < i ==> !(#[trigger] filters@[j].map_id == map_id && filters@[j].mode
                    == mode),
        decreases filters@.len() - i,
    {
        if filters[i].map_id == map_id && filters[i].mode == mode {
            return true;
        }
        i += 1;
    }
    false
}

/// The workshop link looked up for `map_id`: the URL of the first listing
/// entry with that id and a non-empty URL.
pub open spec fn workshop_link_of(entries: Seq<WorkshopMapView>, map_id: u16) -> Option<Seq<char>>
    decreases entries.len(),
{
    if entries.len() == 0 {
        None
    } else if entries[0].id == map_id && entries[0].workshop_url.len() > 0 {
        Some(entries[0].workshop_url)
    } else {
        workshop_link_of(entries.drop_first(), map_id)
    }
}

fn find_workshop_link(entries: &Vec<WorkshopMap>, map_id: u16) -> (r: Option<String>)
    ensures
        r.deep_view() == workshop_link_of(entries.deep_view(), map_id),
{
    let ghost dv = entries.deep_view();
    proof {
        assert(dv.skip(0) =~= dv);
    }
    let mut i: usize = 0;
    while i < entries.len()
        invariant
            i <= dv.len(),
            dv == entries.deep_view(),
            workshop_link_of(dv.skip(i as int), map_id) == workshop_link_of(dv, map_id),
        decreases dv.len() - i,
    {
        if entries[i].id == map_id && !entries[i].workshop_url.as_str().is_empty() {
            let url = entries[i].workshop_url.clone();
            proof {
                assert(dv.skip(i as int)[0] == dv[i as int]);
            }
            return Some(url);
        }
        proof {
            assert(dv.skip(i as int).drop_first() =~= dv.skip(i as int + 1));
            assert(dv.skip(i as int)[0] == dv[i as int]);
        }
        i += 1;
    }
    proof {
        assert(dv.skip(dv.len() as int).len() == 0);
    }
    None
}

/// Lexicographic order on text, by Unicode code point.
pub open spec fn lex_le(a: Seq<char>, b: Seq<char>) -> bool
    decreases a.len(),
{
    if a.len() == 0 {
        true
    } else if b.len() == 0 {
        false
    } else if (a[0] as u32) == (b[0] as u32) {
        lex_le(a.drop_first(), b.drop_first())
    } else {
        (a[0] as u32) < (b[0] as u32)
    }
}

/// The lexicographic order is total.
pub proof fn lemma_lex_le_total(a: Seq<char>, b: Seq<char>)
    ensures
        lex_le(a, b) || lex_le(b, a),
    decreases a.len(),
{
    if a.len() == 0 || b.len() == 0 {
    } else if (a[0] as u32) == (b[0] as u32) {
        lemma_lex_le_total(a.drop_first(), b.drop_first());
    }
}

/// The lexicographic order is transitive.
pub proof fn lemma_lex_le_trans(a: Seq<char>, b: Seq<char>, c: Seq<char>)
    requires
        lex_le(a, b),
        lex_le(b, c),
    ensures
        lex_le(a, c),
    decreases a.len(),
{
    if a.len() == 0 || b.len() == 0 || c.len() == 0 {
    } else if (a[0] as u32) == (b[0] as u32) && (b[0] as u32) == (c[0] as u32) {
        lemma_lex_le_trans(a.drop_first(), b.drop_first(), c.drop_first());
    }
}

fn lex_le_str(a: &str, b: &str) -> (r: bool)
    ensures
        r == lex_le(a@, b@),
{
    let a_len = a.unicode_len();
    let b_len = b.unicode_len();
    proof {
        assert(a@.skip(0) =~= a@);
        assert(b@.skip(0) =~= b@);
    }
    let mut i: usize = 0;
    while i < a_len && i < b_len
        invariant
            i <= a_len,
            i <= b_len,
            a_len == a@.len(),
            b_len == b@.len(),
            lex_le(a@, b@) == lex_le(a@.skip(i as int), b@.skip(i as int)),
        decreases a_len - i,
    {
        let ca = a.get_char(i);
        let cb = b.get_char(i);
        proof {
            assert(a@.skip(i as int)[0] == a@[i as int]);
            assert(b@.skip(i as int)[0] == b@[i as int]);
        }
        if (ca as u32) != (cb as u32) {
            return (ca as u32) < (cb as u32);
        }
        proof {
            assert(a@.skip(i as int).drop_first() =~= a@.skip(i as int + 1));
            assert(b@.skip(i as int).drop_first() =~= b@.skip(i as int + 1));
        }
        i += 1;
    }
    proof {
        if i < a_len {
            assert(a@.skip(i as int).len() > 0);
        }
    }
    i == a_len
}

/// `maps` is sorted by map name, lexicographically.
pub open spec fn sorted_by_name(maps: Seq<GlobalMapView>) -> bool {
    forall|i: int, j: int|
        0 <= i < j < maps.len() ==> lex_le(#[trigger] maps[i].name, #[trigger] maps[j].name)
}

fn insert_position(maps: &Vec<GlobalMap>, name: &str) -> (pos: usize)
    ensures
        pos <= maps@.len(),
        forall|j: int| 0 <= j < pos ==> lex_le(#[trigger] maps.deep_view()[j].name, name@),
        pos < maps@.len() ==> !lex_le(maps.deep_view()[pos as int].name, name@),
{
    let mut pos: usize = 0;
    while pos < maps.len()
        invariant
            pos <= maps@.len(),
            forall|j: int| 0 <= j < pos ==> lex_le(#[trigger] maps.deep_view()[j].name, name@),
        decreases maps@.len() - pos,
    {
        if !lex_le_str(maps[pos].name.as_str(), name) {
            return pos;
        }
        pos += 1;
    }
    pos
}

fn insert_by_name(maps: &mut Vec<GlobalMap>, map: GlobalMap)
    requires
        sorted_by_name(old(maps).deep_view()),
    ensures
        sorted_by_name(final(maps).deep_view()),
        final(maps).deep_view().to_multiset() == old(maps).deep_view().to_multiset().insert(map@),
        forall|e: GlobalMapView| #[trigger]
            final(maps).deep_view().contains(e) ==> old(maps).deep_view().contains(e) || e == map@,
{
    let pos = insert_position(maps, map.name.as_str());
    let ghost dvo = maps.deep_view();
    let ghost mv = map@;
    maps.insert(pos, map);
    proof {
        let p = pos as int;
        let dvn = maps.deep_view();
        dvo.insert_ensures(p, mv);
        assert(dvn =~= dvo.insert(p, mv));
        assert(dvn.to_multiset() == dvo.to_multiset().insert(mv));
        assert forall|x: int, y: int| 0 <= x < y < dvn.len() implies lex_le(
            #[trigger] dvn[x].name,
            #[trigger] dvn[y].name,
        ) by {
            if y < p {
            } else if x > p {
            } else if y == p {
                assert(lex_le(dvo[x].name, mv.name));
            } else if x == p {
                lemma_lex_le_total(dvo[p].name, mv.name);
                if y > p + 1 {
                    lemma_lex_le_trans(mv.name, dvo[p].name, dvo[y - 1].name);
                }
            } else {
                lemma_lex_le_total(dvo[p].name, mv.name);
                if y > p + 1 {
                    lemma_lex_le_trans(mv.name, dvo[p].name, dvo[y - 1].name);
                }
                lemma_lex_le_trans(dvo[x].name, mv.name, dvo[y - 1].name);
            }
        }
        assert forall|e: GlobalMapView| #[trigger] dvn.contains(e) implies dvo.contains(e) || e
            == mv by {
            let i = choose|i: int| 0 <= i < dvn.len() && dvn[i] == e;
            if i < p {
                assert(dvo[i] == e);
            } else if i > p {
                assert(dvo[i - 1] == e);
            }
        }
    }
}

/// The aggregated record for one fetched map, given the record filters and
/// the workshop listing.
pub open spec fn merged_map(
    m: MapInfoView,
    filters: Seq<RecordFilter>,
    entries: Seq<WorkshopMapView>,
) -> GlobalMapView {
    GlobalMapView {
        id: m.id,
        name: m.name,
        tier: m.courses[0].tier,
        global: m.global,
        courses: m.courses,
        kzt: has_filter(filters, m.id, Mode::KZTimer),
        skz: has_filter(filters, m.id, Mode::SimpleKZ),
        vnl: has_filter(filters, m.id, Mode::Vanilla),
        mappers: m.mappers,
        approver_steam_id: m.approved_by,
        filesize: m.filesize,
        created_on: m.created_on,
        updated_on: m.updated_on,
        workshop_link: workshop_link_of(entries, m.id),
    }
}

/// The aggregated records for all fetched maps, in fetch order.
pub open spec fn merged_all(
    maps: Seq<MapInfoView>,
    filters: Seq<RecordFilter>,
    entries: Seq<WorkshopMapView>,
) -> Seq<GlobalMapView> {
    Seq::new(maps.len(), |i: int| merged_map(maps[i], filters, entries))
}

impl GlobalMap {
    /// Aggregates the upstream listings into one collection: every fetched
    /// map joined with its record-filter flags and workshop link, sorted
    /// lexicographically by name.
    pub fn merge(
        maps: &Vec<MapInfo>,
        filters: &Vec<RecordFilter>,
        workshop: &Vec<WorkshopMap>,
    ) -> (r: Vec<GlobalMap>)
        requires
            forall|i: int|
                0 <= i < maps@.len() ==> #[trigger] maps.deep_view()[i].courses.len() > 0,
        ensures
            sorted_by_name(r.deep_view()),
            r.deep_view().to_multiset() == merged_all(
                maps.deep_view(),
                filters@,
                workshop.deep_view(),
            ).to_multiset(),
            forall|i: int|
                0 <= i < r.deep_view().len() ==> flags_consistent(
                    #[trigger] r.deep_view()[i],
                    filters@,
                ),
    {
        let ghost all = maps.deep_view();
        let ghost f = filters@;
        let ghost w = workshop.deep_view();
        let mut r: Vec<GlobalMap> = Vec::new();
        let mut i: usize = 0;
        while i < maps.len()
            invariant
                i <= all.len(),
                all == maps.deep_view(),
                f == filters@,
                w == workshop.deep_view(),
                forall|k: int| 0 <= k < all.len() ==> #[trigger] all[k].courses.len() > 0,
                sorted_by_name(r.deep_view()),
                r.deep_view().to_multiset() == merged_all(all.take(i as int), f, w).to_multiset(),
                forall|k: int|
                    0 <= k < r.deep_view().len() ==> flags_consistent(
                        #[trigger] r.deep_view()[k],
                        f,
                    ),
            decreases all.len() - i,
        {
            let m = &maps[i];
            let kzt = find_filter(filters, m.id, Mode::KZTimer);
            let skz = find_filter(filters, m.id, Mode::SimpleKZ);
            let vnl = find_filter(filters, m.id, Mode::Vanilla);
            let workshop_link = find_workshop_link(workshop, m.id);
            let gm = GlobalMap {
                id: m.id,
                name: m.name.clone(),
                tier: m.courses[0].tier,
                global: m.global,
                courses: clone_courses(&m.courses),
                kzt,
                skz,
                vnl,
                mappers: clone_mappers(&m.mappers),
                approver_steam_id: m.approved_by,
                filesize: m.filesize,
                created_on: m.created_on,
                updated_on: m.updated_on,
                workshop_link,
            };
            proof {
                assert(gm@ == merged_map(all[i as int], f, w));
            }
            let ghost pre = r.deep_view();
            insert_by_name(&mut r, gm);
            proof {
                assert(merged_all(all.take(i as int + 1), f, w) =~= merged_all(
                    all.take(i as int),
                    f,
                    w,
                ).push(gm@));
                assert forall|k: int| 0 <= k < r.deep_view().len() implies flags_consistent(
                    #[trigger] r.deep_view()[k],
                    f,
                ) by {
                    let e = r.deep_view()[k];
                    assert(r.deep_view().contains(e));
                    if pre.contains(e) {
                        let j = choose|j: int| 0 <= j < pre.len() && pre[j] == e;
                    }
                }
            }
            i += 1;
        }
        proof {
            assert(all.take(all.len() as int) =~= all);
        }
        r
    }
}

} // verus!

verus! {

/// The score a candidate map earns against a lowercased query: the maximal
/// score 100 for an empty query, otherwise the skim score of the map's
/// lowercased name, kept only when it reaches the threshold 50.
pub open spec fn match_score(query_lower: Seq<char>, m: GlobalMapView) -> Option<int> {
    if query_lower.len() == 0 {
        Some(100)
    } else {
        match skim_score(lower_of(m.name), query_lower) {
            Some(score) => if score >= 50 {
                Some(score)
            } else {
                None
            },
            None => None,
        }
    }
}

/// The candidates with a qualifying score, in their input order.
pub open spec fn qualifying(query_lower: Seq<char>, maps: Seq<GlobalMapView>) -> Seq<GlobalMapView>
    decreases maps.len(),
{
    if maps.len() == 0 {
        Seq::empty()
    } else {
        let rest = qualifying(query_lower, maps.drop_last());
        if match_score(query_lower, maps.last()) is Some {
            rest.push(maps.last())
        } else {
            rest
        }
    }
}

/// A map is among the qualifying candidates exactly when it is in the
/// collection and its score qualifies.
pub proof fn lemma_qualifying_membership(query_lower: Seq<char>, maps: Seq<GlobalMapView>)
    ensures
        forall|e: GlobalMapView| #[trigger]
            qualifying(query_lower, maps).contains(e) <==> ((exists|i: int|
                0 <= i < maps.len() && #[trigger] maps[i] == e) && match_score(query_lower, e)
                is Some),
    decreases maps.len(),
{
    if maps.len() == 0 {
    } else {
        let prefix = maps.drop_last();
        lemma_qualifying_membership(query_lower, prefix);
        assert forall|e: GlobalMapView| #[trigger]
            qualifying(query_lower, maps).contains(e) implies ((exists|i: int|
            0 <= i < maps.len() && #[trigger] maps[i] == e) && match_score(query_lower, e)
            is Some) by {
            let q = qualifying(query_lower, maps);
            let k = choose|k: int| 0 <= k < q.len() && q[k] == e;
            if match_score(query_lower, maps.last()) is Some {
                if k < q.len() - 1 {
                    assert(qualifying(query_lower, prefix).contains(e));
                    let i = choose|i: int| 0 <= i < prefix.len() && #[trigger] prefix[i] == e;
                    assert(maps[i] == e);
                } else {
                    assert(maps[maps.len() - 1] == e);
                }
            } else {
                assert(qualifying(query_lower, prefix).contains(e));
                let i = choose|i: int| 0 <= i < prefix.len() && #[trigger] prefix[i] == e;
                assert(maps[i] == e);
            }
        }
        assert forall|e: GlobalMapView|
            ((exists|i: int| 0 <= i < maps.len() && #[trigger] maps[i] == e) && match_score(
                query_lower,
                e,
            ) is Some) implies #[trigger] qualifying(query_lower, maps).contains(e) by {
            let i = choose|i: int| 0 <= i < maps.len() && #[trigger] maps[i] == e;
            let rest = qualifying(query_lower, prefix);
            if i < maps.len() - 1 {
                assert(prefix[i] == e);
                assert(rest.contains(e));
                let k = choose|k: int| 0 <= k < rest.len() && rest[k] == e;
                assert(qualifying(query_lower, maps)[k] == e);
            } else {
                assert(maps.last() == e);
                assert(qualifying(query_lower, maps).last() == e);
            }
        }
    }
}

/// The views of the maps in a scored list.
spec fn scored_views(scored: Seq<(i64, GlobalMap)>) -> Seq<GlobalMapView> {
    Seq::new(scored.len(), |i: int| scored[i].1@)
}

fn score_position(scored: &Vec<(i64, GlobalMap)>, score: i64) -> (pos: usize)
    ensures
        pos <= scored@.len(),
        forall|j: int| 0 <= j < pos ==> (#[trigger] scored@[j]).0 <= score,
        pos < scored@.len() ==> scored@[pos as int].0 > score,
{
    let mut pos: usize = 0;
    while pos < scored.len()
        invariant
            pos <= scored@.len(),
            forall|j: int| 0 <= j < pos ==> (#[trigger] scored@[j]).0 <= score,
        decreases scored@.len() - pos,
    {
        if scored[pos].0 > score {
            return pos;
        }
        pos += 1;
    }
    pos
}

impl GlobalMap {
    /// Scores every map's name against `map_name`, case-insensitively,
    /// keeps the candidates whose score qualifies, and returns them ordered
    /// by ascending score (the best match last, not first). An empty
    /// `map_name` returns the full input collection, each map scored
    /// maximally.
    pub fn fuzzy_match(map_name: &str, maps: &[Self]) -> (r: Vec<Self>)
        ensures
            r.deep_view().to_multiset() == qualifying(
                lower_of(map_name@),
                maps.deep_view(),
            ).to_multiset(),
            forall|i: int|
                0 <= i < r.deep_view().len() ==> match_score(
                    lower_of(map_name@),
                    #[trigger] r.deep_view()[i],
                ) is Some,
            forall|i: int, j: int|
                0 <= i < j < r.deep_view().len() ==> match_score(
                    lower_of(map_name@),
                    #[trigger] r.deep_view()[i],
                ).unwrap() <= match_score(
                    lower_of(map_name@),
                    #[trigger] r.deep_view()[j],
                ).unwrap(),
            map_name@.len() == 0 ==> r.deep_view() == maps.deep_view(),
    {
        let query = lowercase(map_name);
        let ghost q = lower_of(map_name@);
        let ghost dv = maps.deep_view();
        let mut scored: Vec<(i64, GlobalMap)> = Vec::new();
        let mut i: usize = 0;
        while i < maps.len()
            invariant
                i <= dv.len(),
                dv == maps.deep_view(),
                q == lower_of(map_name@),
                query@ == q,
                map_name@.len() == 0 ==> q.len() == 0,
                forall|k: int|
                    0 <= k < scored@.len() ==> match_score(q, (#[trigger] scored@[k]).1@) == Some(
                        scored@[k].0 as int,
                    ),
                forall|k: int, l: int|
                    0 <= k < l < scored@.len() ==> (#[trigger] scored@[k]).0 <= (
                    #[trigger] scored@[l]).0,
                scored_views(scored@).to_multiset() == qualifying(q, dv.take(i as int)).to_multiset(),
                q.len() == 0 ==> (scored@.len() == i && forall|k: int|
                    0 <= k < i ==> (#[trigger] scored@[k]).1@ == dv[k] && scored@[k].0 == 100),
            decreases dv.len() - i,
        {
            let m = &maps[i];
            let score_opt: Option<i64> = if query.as_str().is_empty() {
                Some(100)
            } else {
                let name_lower = lowercase(m.name.as_str());
                match skim_fuzzy_match(name_lower.as_str(), query.as_str()) {
                    Some(score) => if score >= 50 {
                        Some(score)
                    } else {
                        None
                    },
                    None => None,
                }
            };
            proof {
                assert(dv.take(i as int + 1).drop_last() =~= dv.take(i as int));
                assert(dv.take(i as int + 1).last() == dv[i as int]);
                assert(match match_score(q, dv[i as int]) {
                    Some(s) => score_opt matches Some(e) && e as int == s,
                    None => score_opt is None,
                });
            }
            match score_opt {
                Some(score) => {
                    let pos = score_position(&scored, score);
                    let ghost pre = scored@;
                    scored.insert(pos, (score, m.clone()));
                    proof {
                        pre.insert_ensures(pos as int, scored@[pos as int]);
                        assert(scored@[pos as int].0 == score);
                        assert(scored@[pos as int].1@ == dv[i as int]);
                        assert(scored_views(scored@) =~= scored_views(pre).insert(
                            pos as int,
                            dv[i as int],
                        ));
                        scored_views(pre).insert_ensures(pos as int, dv[i as int]);
                        if q.len() == 0 {
                            assert(pos == i);
                            assert(scored@ =~= pre.push(scored@[pos as int]));
                        }
                    }
                }
                None => {
                }
            }
            i += 1;
        }
        proof {
            assert(dv.take(dv.len() as int) =~= dv);
        }
        let ghost fin = scored@;
        let mut r: Vec<GlobalMap> = Vec::new();
        let mut k: usize = 0;
        while k < scored.len()
            invariant
                k <= fin.len(),
                fin == scored@,
                r@.len() == k,
                forall|j: int| 0 <= j < k ==> (#[trigger] r@[j])@ == fin[j].1@,
            decreases fin.len() - k,
        {
            let m = (&scored[k].1).clone();
            r.push(m);
            k += 1;
        }
        proof {
            assert(r.deep_view() =~= scored_views(fin));
            if map_name@.len() == 0 {
                assert(r.deep_view() =~= dv);
            }
        }
        r
    }

    /// Fuzzy find a map by its identifier in a collection of maps.
    /// An id is looked up exactly, returning the first map carrying it; a
    /// name is matched fuzzily, returning a qualifying candidate with the
    /// lowest score, or nothing when none qualifies.
    pub fn fuzzy_search(maps: &[Self], map_identifier: MapIdentifier) -> (r: Option<Self>)
        ensures
            map_identifier matches MapIdentifier::ID(map_id) ==> {
                &&& (r is Some <==> exists|i: int|
                    0 <= i < maps.deep_view().len() && (#[trigger] maps.deep_view()[i]).id
                        == map_id)
                &&& r matches Some(m) ==> exists|i: int|
                    {
                        &&& 0 <= i < maps.deep_view().len()
                        &&& m@ == #[trigger] maps.deep_view()[i]
                        &&& maps.deep_view()[i].id == map_id
                        &&& forall|j: int|
                            0 <= j < i ==> (#[trigger] maps.deep_view()[j]).id != map_id
                    }
            },
            map_identifier matches MapIdentifier::Name(map_name) ==> {
                &&& (r is Some <==> qualifying(lower_of(map_name@), maps.deep_view()).len() > 0)
                &&& r matches Some(m) ==> {
                    &&& match_score(lower_of(map_name@), m@) is Some
                    &&& maps.deep_view().contains(m@)
                    &&& forall|j: int|
                        0 <= j < maps.deep_view().len() && match_score(
                            lower_of(map_name@),
                            #[trigger] maps.deep_view()[j],
                        ) is Some ==> match_score(lower_of(map_name@), m@).unwrap() <= match_score(
                            lower_of(map_name@),
                            maps.deep_view()[j],
                        ).unwrap()
                }
            },
    {
        let ghost dv = maps.deep_view();
        match &map_identifier {
            MapIdentifier::ID(id) => {
                let map_id = *id;
                let mut i: usize = 0;
                while i < maps.len()
                    invariant
                        i <= dv.len(),
                        dv == maps.deep_view(),
                        map_identifier == MapIdentifier::ID(map_id),
                        forall|j: int| 0 <= j < i ==> (#[trigger] dv[j]).id != map_id,
                    decreases dv.len() - i,
                {
                    if maps[i].id == map_id {
                        let m = (&maps[i]).clone();
                        proof {
                            let ii = i as int;
                            assert(m@ == dv[ii]);
                            assert(dv[ii].id == map_id);
                            assert(exists|w: int|
                                {
                                    &&& 0 <= w < maps.deep_view().len()
                                    &&& m@ == #[trigger] maps.deep_view()[w]
                                    &&& maps.deep_view()[w].id == map_id
                                    &&& forall|j: int|
                                        0 <= j < w ==> (#[trigger] maps.deep_view()[j]).id
                                            != map_id
                                }) by {
                                assert({
                                    &&& 0 <= ii < maps.deep_view().len()
                                    &&& m@ == maps.deep_view()[ii]
                                    &&& maps.deep_view()[ii].id == map_id
                                    &&& forall|j: int|
                                        0 <= j < ii ==> (#[trigger] maps.deep_view()[j]).id
                                            != map_id
                                });
                            }
                            assert(exists|w: int|
                                0 <= w < maps.deep_view().len() && (
                                #[trigger] maps.deep_view()[w]).id == map_id);
                        }
                        return Some(m);
                    }
                    i += 1;
                }
                None
            }
            MapIdentifier::Name(map_name) => {
                let ghost q = lower_of(map_name@);
                proof {
                    assert(map_identifier matches MapIdentifier::Name(n) && n@ == map_name@);
                }
                let found = Self::fuzzy_match(map_name.as_str(), maps);
                proof {
                    lemma_qualifying_membership(q, dv);
                }
                if found.len() > 0 {
                    let m = (&found[0]).clone();
                    proof {
                        let fdv = found.deep_view();
                        assert(m@ == fdv[0]);
                        assert(fdv.contains(m@));
                        assert(fdv.to_multiset().count(m@) > 0);
                        assert(qualifying(q, dv).to_multiset().count(m@) > 0);
                        assert(qualifying(q, dv).contains(m@));
                        assert forall|j: int|
                            0 <= j < dv.len() && match_score(q, #[trigger] dv[j])
                                is Some implies match_score(q, m@).unwrap() <= match_score(
                            q,
                            dv[j],
                        ).unwrap() by {
                            assert(qualifying(q, dv).contains(dv[j]));
                            assert(qualifying(q, dv).to_multiset().count(dv[j]) > 0);
                            assert(fdv.to_multiset().count(dv[j]) > 0);
                            assert(fdv.contains(dv[j]));
                            let k = choose|k: int| 0 <= k < fdv.len() && fdv[k] == dv[j];
                        }
                    }
                    Some(m)
                } else {
                    proof {
                        assert(found.deep_view().len() == 0);
                        assert(found.deep_view().to_multiset().len() == 0);
                    }
                    None
                }
            }
        }
    }
}

} // verus!

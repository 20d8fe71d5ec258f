use vstd::prelude::*;
use crate::json::{json_of, str_eq};
use crate::raw::{
    spec_decode_response, RawCellV, RawKingdomV, RawMapData, RawMapDataV, RawPlayerV, RawVillageV,
    WorldError, WorldErrorV,
};
use crate::table::{Coord, CoordTable, IdTable};

verus! {

/// A stable identifier, unique within one entity kind.
pub type Id = i64;

/// An occupant of a grid coordinate: the owning kingdom (absent for a player
/// with no kingdom), the owning player, and the village itself.
pub type Occupant = (Option<Id>, Id, Id);

#[derive(Clone, Copy, Debug, PartialEq, Eq)]
pub enum Tribe {
    Gaul,
    Teuton,
    Roman,
}

/// The tribe that a snapshot code denotes.
pub open spec fn spec_tribe(code: Seq<char>) -> Option<Tribe> {
    if code == "1"@ {
        Some(Tribe::Roman)
    } else if code == "2"@ {
        Some(Tribe::Teuton)
    } else if code == "3"@ {
        Some(Tribe::Gaul)
    } else {
        None
    }
}

impl Tribe {
    /// Decode a tribe code; an unknown code fails, naming the code.
    pub fn from_str(s: &str) -> (r: Result<Tribe, WorldError>)
        ensures
            r matches Ok(t) ==> spec_tribe(s@) == Some(t),
            r matches Err(e) ==> spec_tribe(s@) is None && e@ == WorldErrorV::UnknownTribe(s@),
    {
        if str_eq(s, "1") {
            Ok(Tribe::Roman)
        } else if str_eq(s, "2") {
            Ok(Tribe::Teuton)
        } else if str_eq(s, "3") {
            Ok(Tribe::Gaul)
        } else {
            Err(WorldError::UnknownTribe(s.to_owned()))
        }
    }
}

#[derive(Clone, Copy, Debug, PartialEq, Eq)]
pub enum Role {
    King,
    Vice,
    Duke,
    Gov,
}

/// The role that a snapshot code denotes.
pub open spec fn spec_role(code: i64) -> Option<Role> {
    if code == 0 {
        Some(Role::Gov)
    } else if code == 1 {
        Some(Role::King)
    } else if code == 2 {
        Some(Role::Duke)
    } else if code == 3 {
        Some(Role::Vice)
    } else {
        None
    }
}

impl Role {
    /// Decode a role code; an unknown code fails, naming the code.
    pub fn from_i32(i: i64) -> (r: Result<Role, WorldError>)
        ensures
            r matches Ok(t) ==> spec_role(i) == Some(t),
            r matches Err(e) ==> spec_role(i) is None && e@ == WorldErrorV::UnknownRole(i),
    {
        if i == 0 {
            Ok(Role::Gov)
        } else if i == 1 {
            Ok(Role::King)
        } else if i == 2 {
            Ok(Role::Duke)
        } else if i == 3 {
            Ok(Role::Vice)
        } else {
            Err(WorldError::UnknownRole(i))
        }
    }
}

/// One classified grid cell. `Other`, `Oasis` and `Empty` carry the
/// influencing kingdom id; `Occupied` carries the full ownership triple.
#[derive(Clone, Copy, Debug, PartialEq, Eq)]
pub enum Cell {
    Oasis(Option<Id>),
    Empty(Option<Id>),
    Occupied(Option<Id>, Id, Id),
    Other(Option<Id>),
}

/// The classification rule. A cell with no resource (`res_type` code "0") is
/// `Other` regardless of its oasis code; otherwise an oasis code other than
/// "0" makes it an `Oasis`; otherwise it is `Occupied` or `Empty` according
/// to whether a village stands at its coordinate.
pub open spec fn spec_classify(
    res_type: Seq<char>,
    oasis: Seq<char>,
    influenced_by: Option<Id>,
    belongs_to: Option<Occupant>,
) -> Cell {
    if res_type == "0"@ {
        Cell::Other(influenced_by)
    } else if oasis != "0"@ {
        Cell::Oasis(influenced_by)
    } else {
        match belongs_to {
            Option::None => Cell::Empty(influenced_by),
            Option::Some(t) => Cell::Occupied(t.0, t.1, t.2),
        }
    }
}

impl Cell {
    /// Classify one cell from its codes and the occupant lookup result.
    pub fn new(
        res_type: &str,
        oasis: &str,
        influenced_by: Option<Id>,
        belongs_to: Option<Occupant>,
    ) -> (r: Cell)
        ensures
            r == spec_classify(res_type@, oasis@, influenced_by, belongs_to),
    {
        if str_eq(res_type, "0") {
            Cell::Other(influenced_by)
        } else if !str_eq(oasis, "0") {
            Cell::Oasis(influenced_by)
        } else {
            match belongs_to {
                None => Cell::Empty(influenced_by),
                Some((kid, pid, vid)) => Cell::Occupied(kid, pid, vid),
            }
        }
    }
}

/// An entity kind that exposes a display name.
pub trait Named {
    spec fn spec_name(&self) -> Seq<char>;

    fn name(&self) -> (r: &str)
        ensures
            r@ == self.spec_name(),
    ;
}

#[derive(Debug)]
pub struct Kingdom {
    pub name: String,
    pub victory_points: i64,
    pub player_ids: Vec<Id>,
}

pub struct KingdomV {
    pub name: Seq<char>,
    pub victory_points: i64,
    pub player_ids: Seq<Id>,
}

impl View for Kingdom {
    type V = KingdomV;

    open spec fn view(&self) -> KingdomV {
        KingdomV {
            name: self.name@,
            victory_points: self.victory_points,
            player_ids: self.player_ids@,
        }
    }
}

impl Named for Kingdom {
    open spec fn spec_name(&self) -> Seq<char> {
        self.name@
    }

    fn name(&self) -> &str {
        self.name.as_str()
    }
}

#[derive(Debug)]
pub struct Player {
    pub name: String,
    pub tribe: Tribe,
    pub role: Role,
    pub treasures: i64,
    pub village_ids: Vec<Id>,
}

pub struct PlayerV {
    pub name: Seq<char>,
    pub tribe: Tribe,
    pub role: Role,
    pub treasures: i64,
    pub village_ids: Seq<Id>,
}

impl View for Player {
    type V = PlayerV;

    open spec fn view(&self) -> PlayerV {
        PlayerV {
            name: self.name@,
            tribe: self.tribe,
            role: self.role,
            treasures: self.treasures,
            village_ids: self.village_ids@,
        }
    }
}

impl Named for Player {
    open spec fn spec_name(&self) -> Seq<char> {
        self.name@
    }

    fn name(&self) -> &str {
        self.name.as_str()
    }
}

#[derive(Debug)]
pub struct Village {
    pub name: String,
    pub pop: i64,
    pub is_capital: bool,
    pub is_city: bool,
    pub coords: Coord,
    pub crop_fields: Option<i64>,
}

pub struct VillageV {
    pub name: Seq<char>,
    pub pop: i64,
    pub is_capital: bool,
    pub is_city: bool,
    pub coords: Coord,
    pub crop_fields: Option<i64>,
}

impl View for Village {
    type V = VillageV;

    open spec fn view(&self) -> VillageV {
        VillageV {
            name: self.name@,
            pop: self.pop,
            is_capital: self.is_capital,
            is_city: self.is_city,
            coords: self.coords,
            crop_fields: self.crop_fields,
        }
    }
}

impl Named for Village {
    open spec fn spec_name(&self) -> Seq<char> {
        self.name@
    }

    fn name(&self) -> &str {
        self.name.as_str()
    }
}

impl Village {
    /// An owned copy with the same fields.
    pub fn duplicate(&self) -> (r: Village)
        ensures
            r@ == self@,
    {
        Village {
            name: self.name.clone(),
            pop: self.pop,
            is_capital: self.is_capital,
            is_city: self.is_city,
            coords: self.coords,
            crop_fields: self.crop_fields,
        }
    }
}

pub open spec fn kingdoms_view(m: Map<Id, Kingdom>) -> Map<Id, KingdomV> {
    m.map_values(|k: Kingdom| k@)
}

pub open spec fn players_view(m: Map<Id, Player>) -> Map<Id, PlayerV> {
    m.map_values(|p: Player| p@)
}

pub open spec fn villages_view(m: Map<Id, Village>) -> Map<Id, VillageV> {
    m.map_values(|v: Village| v@)
}

/// The normalized world: entity tables keyed by id, and the classified cell
/// table keyed by coordinate. Immutable once built.
pub struct GameWorld {
    pub radius: i64,
    pub kingdoms: IdTable<Kingdom>,
    pub players: IdTable<Player>,
    pub villages: IdTable<Village>,
    pub cells: CoordTable<Cell>,
}

pub struct GameWorldV {
    pub radius: i64,
    pub kingdoms: Map<Id, KingdomV>,
    pub players: Map<Id, PlayerV>,
    pub villages: Map<Id, VillageV>,
    pub cells: Map<Coord, Cell>,
}

impl View for GameWorld {
    type V = GameWorldV;

    open spec fn view(&self) -> GameWorldV {
        GameWorldV {
            radius: self.radius,
            kingdoms: kingdoms_view(self.kingdoms@),
            players: players_view(self.players@),
            villages: villages_view(self.villages@),
            cells: self.cells@,
        }
    }
}

impl GameWorld {
    pub open spec fn wf(self) -> bool {
        self.kingdoms.wf() && self.players.wf() && self.villages.wf() && self.cells.wf()
    }
}

/// The kingdom table after indexing the raw kingdoms by id, each starting
/// with an empty member list; a repeated id keeps the later record.
pub open spec fn spec_build_kingdoms(ks: Seq<RawKingdomV>) -> Map<Id, KingdomV>
    decreases ks.len(),
{
    if ks.len() == 0 {
        Map::empty()
    } else {
        spec_build_kingdoms(ks.drop_last()).insert(
            ks.last().kingdom_id,
            KingdomV {
                name: ks.last().kingdom_tag,
                victory_points: ks.last().victory_points,
                player_ids: Seq::empty(),
            },
        )
    }
}

pub open spec fn spec_village(v: RawVillageV) -> VillageV {
    VillageV {
        name: v.name,
        pop: v.population,
        is_capital: v.is_main_village,
        is_city: v.is_city,
        coords: Coord { x: v.x, y: v.y },
        crop_fields: None,
    }
}

pub open spec fn spec_village_ids(vs: Seq<RawVillageV>) -> Seq<Id> {
    vs.map(|i: int, v: RawVillageV| v.village_id)
}

/// The village table after inserting one player's villages, keyed by id.
pub open spec fn spec_add_villages(villages: Map<Id, VillageV>, vs: Seq<RawVillageV>) -> Map<
    Id,
    VillageV,
>
    decreases vs.len(),
{
    if vs.len() == 0 {
        villages
    } else {
        spec_add_villages(villages, vs.drop_last()).insert(
            vs.last().village_id,
            spec_village(vs.last()),
        )
    }
}

/// The build state while players are folded in: the kingdom, player and
/// village tables.
pub type BuildState = (Map<Id, KingdomV>, Map<Id, PlayerV>, Map<Id, VillageV>);

/// Fold one raw player into the build state: decode its tribe and role
/// (failing on an unknown code), insert its villages, insert the player, and
/// append the player to its declared kingdom's member list where that kingdom
/// exists; an unknown kingdom id drops the association silently.
pub open spec fn spec_add_player(st: BuildState, p: RawPlayerV) -> Result<
    BuildState,
    WorldErrorV,
> {
    match spec_tribe(p.tribe_id) {
        Option::None => Err(WorldErrorV::UnknownTribe(p.tribe_id)),
        Option::Some(tribe) => match spec_role(p.role) {
            Option::None => Err(WorldErrorV::UnknownRole(p.role)),
            Option::Some(role) => {
                let villages = spec_add_villages(st.2, p.villages);
                let player = PlayerV {
                    name: p.name,
                    tribe,
                    role,
                    treasures: p.treasures,
                    village_ids: spec_village_ids(p.villages),
                };
                let players = st.1.insert(p.player_id, player);
                let kingdoms = if st.0.contains_key(p.kingdom_id) {
                    st.0.insert(
                        p.kingdom_id,
                        KingdomV {
                            name: st.0[p.kingdom_id].name,
                            victory_points: st.0[p.kingdom_id].victory_points,
                            player_ids: st.0[p.kingdom_id].player_ids.push(p.player_id),
                        },
                    )
                } else {
                    st.0
                };
                Ok((kingdoms, players, villages))
            },
        },
    }
}

pub open spec fn spec_add_players(st: BuildState, ps: Seq<RawPlayerV>) -> Result<
    BuildState,
    WorldErrorV,
>
    decreases ps.len(),
{
    if ps.len() == 0 {
        Ok(st)
    } else {
        match spec_add_players(st, ps.drop_last()) {
            Err(e) => Err(e),
            Ok(st1) => spec_add_player(st1, ps.last()),
        }
    }
}

proof fn lemma_add_players_err(st: BuildState, ps: Seq<RawPlayerV>, m: int)
    requires
        0 <= m <= ps.len(),
        spec_add_players(st, ps.take(m)) is Err,
    ensures
        spec_add_players(st, ps) == spec_add_players(st, ps.take(m)),
    decreases ps.len() - m,
{
    if m < ps.len() {
        assert(ps.take(m + 1).drop_last() =~= ps.take(m));
        lemma_add_players_err(st, ps, m + 1);
    } else {
        assert(ps.take(m) =~= ps);
    }
}

/// The occupant index after inserting one player's villages: each village id
/// that resolves in the village table contributes its coordinate.
pub open spec fn spec_index_villages(
    idx: Map<Coord, Occupant>,
    villages: Map<Id, VillageV>,
    kid: Option<Id>,
    pid: Id,
    ids: Seq<Id>,
) -> Map<Coord, Occupant>
    decreases ids.len(),
{
    if ids.len() == 0 {
        idx
    } else {
        let rest = spec_index_villages(idx, villages, kid, pid, ids.drop_last());
        if villages.contains_key(ids.last()) {
            rest.insert(villages[ids.last()].coords, (kid, pid, ids.last()))
        } else {
            rest
        }
    }
}

/// The coordinate-to-occupant index over all players, in snapshot order; a
/// later village at an occupied coordinate wins.
pub open spec fn spec_build_index(
    idx: Map<Coord, Occupant>,
    villages: Map<Id, VillageV>,
    kingdoms: Map<Id, KingdomV>,
    ps: Seq<RawPlayerV>,
) -> Map<Coord, Occupant>
    decreases ps.len(),
{
    if ps.len() == 0 {
        idx
    } else {
        let rest = spec_build_index(idx, villages, kingdoms, ps.drop_last());
        let p = ps.last();
        let kid = if kingdoms.contains_key(p.kingdom_id) {
            Some(p.kingdom_id)
        } else {
            None
        };
        spec_index_villages(rest, villages, kid, p.player_id, spec_village_ids(p.villages))
    }
}

/// The classified-cell table over the raw cell list, in snapshot order.
pub open spec fn spec_build_cells(
    cells: Map<Coord, Cell>,
    kingdoms: Map<Id, KingdomV>,
    idx: Map<Coord, Occupant>,
    cs: Seq<RawCellV>,
) -> Map<Coord, Cell>
    decreases cs.len(),
{
    if cs.len() == 0 {
        cells
    } else {
        let rest = spec_build_cells(cells, kingdoms, idx, cs.drop_last());
        let c = cs.last();
        let influenced = if kingdoms.contains_key(c.kingdom_id) {
            Some(c.kingdom_id)
        } else {
            None
        };
        let coord = Coord { x: c.x, y: c.y };
        let belongs = if idx.contains_key(coord) {
            Some(idx[coord])
        } else {
            None
        };
        rest.insert(coord, spec_classify(c.res_type, c.oasis, influenced, belongs))
    }
}

/// The whole normalized world that a decoded record builds to, or the first
/// unknown tribe or role code.
pub open spec fn spec_build(d: RawMapDataV) -> Result<GameWorldV, WorldErrorV> {
    let kingdoms0 = spec_build_kingdoms(d.kingdoms);
    match spec_add_players((kingdoms0, Map::empty(), Map::empty()), d.players) {
        Err(e) => Err(e),
        Ok(st) => {
            let idx = spec_build_index(Map::empty(), st.2, st.0, d.players);
            let cells = spec_build_cells(Map::empty(), st.0, idx, d.map.cells);
            Ok(
                GameWorldV {
                    radius: d.map.radius,
                    kingdoms: st.0,
                    players: st.1,
                    villages: st.2,
                    cells,
                },
            )
        },
    }
}

fn clone_ids(v: &Vec<i64>) -> (r: Vec<i64>)
    ensures
        r@ == v@,
{
    let mut r: Vec<i64> = Vec::new();
    let n = v.len();
    for i in 0..n
        invariant
            n == v@.len(),
            r@ == v@.take(i as int),
    {
        r.push(v[i]);
        proof {
            assert(v@.take(i + 1) =~= v@.take(i as int).push(v@[i as int]));
        }
    }
    proof {
        assert(v@.take(n as int) =~= v@);
    }
    r
}

impl GameWorld {
    /// Build the normalized world from a decoded record: index the kingdoms,
    /// fold in the players and their villages, build the coordinate-occupant
    /// index, and classify every cell. Fails on the first unknown tribe or
    /// role code.
    pub fn from_data(data: &RawMapData) -> (r: Result<GameWorld, WorldError>)
        ensures
            r matches Ok(w) ==> w.wf() && spec_build(data@) == Ok::<GameWorldV, WorldErrorV>(w@),
            r matches Err(e) ==> spec_build(data@) == Err::<GameWorldV, WorldErrorV>(e@),
    {
        let ghost dk = data@.kingdoms;
        let ghost dp = data@.players;
        let ghost dc = data@.map.cells;

        let mut kingdoms: IdTable<Kingdom> = IdTable::new();
        let nk = data.kingdoms.len();
        proof {
            assert(kingdoms_view(kingdoms@) =~= spec_build_kingdoms(dk.take(0)));
        }
        for i in 0..nk
            invariant
                nk == data.kingdoms@.len(),
                dk == data@.kingdoms,
                dk.len() == nk,
                kingdoms.wf(),
                kingdoms_view(kingdoms@) == spec_build_kingdoms(dk.take(i as int)),
        {
            let k = &data.kingdoms[i];
            let entry = Kingdom {
                name: k.kingdom_tag.clone(),
                victory_points: k.victory_points,
                player_ids: Vec::new(),
            };
            kingdoms.insert(k.kingdom_id, entry);
            proof {
                assert(dk[i as int] == data.kingdoms@[i as int]@);
                assert(dk.take(i + 1).drop_last() =~= dk.take(i as int));
                assert(dk.take(i + 1).last() == dk[i as int]);
                assert(kingdoms_view(kingdoms@) =~= spec_build_kingdoms(dk.take(i + 1)));
            }
        }
        proof {
            assert(dk.take(nk as int) =~= dk);
        }

        let ghost init: BuildState = (
            spec_build_kingdoms(dk),
            Map::<Id, PlayerV>::empty(),
            Map::<Id, VillageV>::empty(),
        );
        let mut players: IdTable<Player> = IdTable::new();
        let mut villages: IdTable<Village> = IdTable::new();
        let np = data.players.len();
        proof {
            assert(players_view(players@) =~= Map::<Id, PlayerV>::empty());
            assert(villages_view(villages@) =~= Map::<Id, VillageV>::empty());
            assert(dp.take(0) =~= Seq::<RawPlayerV>::empty());
        }
        for i in 0..np
            invariant
                np == data.players@.len(),
                dp == data@.players,
                dp.len() == np,
                dk == data@.kingdoms,
                init == (
                    spec_build_kingdoms(dk),
                    Map::<Id, PlayerV>::empty(),
                    Map::<Id, VillageV>::empty(),
                ),
                kingdoms.wf(),
                players.wf(),
                villages.wf(),
                spec_add_players(init, dp.take(i as int)) == Ok::<BuildState, WorldErrorV>(
                    (kingdoms_view(kingdoms@), players_view(players@), villages_view(villages@)),
                ),
        {
            let p = &data.players[i];
            let ghost pv = dp[i as int];
            let ghost st_i = (
                kingdoms_view(kingdoms@),
                players_view(players@),
                villages_view(villages@),
            );
            proof {
                assert(pv == data.players@[i as int]@);
                assert(dp.take(i + 1).drop_last() =~= dp.take(i as int));
                assert(dp.take(i + 1).last() == pv);
            }
            let tribe = match Tribe::from_str(p.tribe_id.as_str()) {
                Ok(t) => t,
                Err(e) => {
                    proof {
                        assert(spec_add_player(st_i, pv) == Err::<BuildState, WorldErrorV>(e@));
                        assert(spec_add_players(init, dp.take(i + 1)) == Err::<
                            BuildState,
                            WorldErrorV,
                        >(e@));
                        lemma_add_players_err(init, dp, i + 1);
                        assert(spec_add_players(init, dp) == Err::<BuildState, WorldErrorV>(e@));
                        assert(spec_build(data@) == Err::<GameWorldV, WorldErrorV>(e@));
                    }
                    return Err(e);
                },
            };
            let role = match Role::from_i32(p.role) {
                Ok(t) => t,
                Err(e) => {
                    proof {
                        assert(spec_add_player(st_i, pv) == Err::<BuildState, WorldErrorV>(e@));
                        assert(spec_add_players(init, dp.take(i + 1)) == Err::<
                            BuildState,
                            WorldErrorV,
                        >(e@));
                        lemma_add_players_err(init, dp, i + 1);
                        assert(spec_add_players(init, dp) == Err::<BuildState, WorldErrorV>(e@));
                        assert(spec_build(data@) == Err::<GameWorldV, WorldErrorV>(e@));
                    }
                    return Err(e);
                },
            };
            let mut village_ids: Vec<Id> = Vec::new();
            let ghost v0 = villages_view(villages@);
            let nv = p.villages.len();
            proof {
                assert(pv.villages.take(0) =~= Seq::<RawVillageV>::empty());
                assert(village_ids@ =~= spec_village_ids(pv.villages.take(0)));
                assert(pv.villages =~= p.villages@.map(|t: int, v: crate::raw::RawVillage| v@));
            }
            for j in 0..nv
                invariant
                    nv == p.villages@.len(),
                    pv.villages.len() == nv,
                    forall|t: int| 0 <= t < nv ==> pv.villages[t] == p.villages@[t]@,
                    villages.wf(),
                    villages_view(villages@) == spec_add_villages(v0, pv.villages.take(j as int)),
                    village_ids@ == spec_village_ids(pv.villages.take(j as int)),
            {
                let v = &p.villages[j];
                let entry = Village {
                    name: v.name.clone(),
                    pop: v.population,
                    is_capital: v.is_main_village,
                    is_city: v.is_city,
                    coords: Coord { x: v.x, y: v.y },
                    crop_fields: None,
                };
                villages.insert(v.village_id, entry);
                village_ids.push(v.village_id);
                proof {
                    assert(pv.villages.take(j + 1).drop_last() =~= pv.villages.take(j as int));
                    assert(pv.villages.take(j + 1).last() == pv.villages[j as int]);
                    assert(villages_view(villages@) =~= spec_add_villages(
                        v0,
                        pv.villages.take(j + 1),
                    ));
                    assert(village_ids@ =~= spec_village_ids(pv.villages.take(j + 1)));
                }
            }
            proof {
                assert(pv.villages.take(nv as int) =~= pv.villages);
            }
            let ghost idsv = village_ids@;
            let pid = p.player_id;
            let player = Player {
                name: p.name.clone(),
                tribe,
                role,
                treasures: p.treasures,
                village_ids,
            };
            players.insert(pid, player);
            let ghost kpre = kingdoms@;
            let updated = match kingdoms.get(p.kingdom_id) {
                Some(k) => {
                    let mut ids = clone_ids(&k.player_ids);
                    ids.push(pid);
                    Some(
                        Kingdom {
                            name: k.name.clone(),
                            victory_points: k.victory_points,
                            player_ids: ids,
                        },
                    )
                },
                None => None,
            };
            proof {
                assert(st_i.0.contains_key(pv.kingdom_id) == kingdoms@.contains_key(pv.kingdom_id));
            }
            match updated {
                Some(k2) => {
                    kingdoms.insert(p.kingdom_id, k2);
                },
                None => {},
            }
            proof {
                assert(spec_tribe(pv.tribe_id) == Some(tribe));
                assert(spec_role(pv.role) == Some(role));
                assert(players_view(players@) =~= st_i.1.insert(
                    pv.player_id,
                    (PlayerV {
                        name: pv.name,
                        tribe,
                        role,
                        treasures: pv.treasures,
                        village_ids: idsv,
                    }),
                ));
                if st_i.0.contains_key(pv.kingdom_id) {
                    assert(st_i.0[pv.kingdom_id] == kpre[pv.kingdom_id]@);
                    assert(kingdoms_view(kingdoms@) =~= st_i.0.insert(
                        pv.kingdom_id,
                        (KingdomV {
                            name: st_i.0[pv.kingdom_id].name,
                            victory_points: st_i.0[pv.kingdom_id].victory_points,
                            player_ids: st_i.0[pv.kingdom_id].player_ids.push(pv.player_id),
                        }),
                    ));
                } else {
                    assert(kingdoms_view(kingdoms@) =~= st_i.0);
                }
                assert(spec_add_player(st_i, pv) == Ok::<BuildState, WorldErrorV>(
                    (kingdoms_view(kingdoms@), players_view(players@), villages_view(villages@)),
                ));
            }
        }
        proof {
            assert(dp.take(np as int) =~= dp);
        }

        let ghost kv_f = kingdoms_view(kingdoms@);
        let ghost vv_f = villages_view(villages@);
        let mut coord_to_ids: CoordTable<Occupant> = CoordTable::new();
        proof {
            assert(dp.take(0) =~= Seq::<RawPlayerV>::empty());
            assert(coord_to_ids@ =~= spec_build_index(
                Map::<Coord, Occupant>::empty(),
                vv_f,
                kv_f,
                dp.take(0),
            ));
        }
        for i in 0..np
            invariant
                np == data.players@.len(),
                dp == data@.players,
                dp.len() == np,
                kingdoms.wf(),
                villages.wf(),
                coord_to_ids.wf(),
                kv_f == kingdoms_view(kingdoms@),
                vv_f == villages_view(villages@),
                coord_to_ids@ == spec_build_index(
                    Map::<Coord, Occupant>::empty(),
                    vv_f,
                    kv_f,
                    dp.take(i as int),
                ),
        {
            let p = &data.players[i];
            let ghost pv = dp[i as int];
            proof {
                assert(pv == data.players@[i as int]@);
                assert(kv_f.contains_key(pv.kingdom_id) == kingdoms@.contains_key(pv.kingdom_id));
            }
            let kid_opt = if kingdoms.contains(p.kingdom_id) {
                Some(p.kingdom_id)
            } else {
                None
            };
            let ghost idx0 = coord_to_ids@;
            let ghost ids = spec_village_ids(pv.villages);
            let nv = p.villages.len();
            proof {
                assert(ids.take(0) =~= Seq::<Id>::empty());
                assert(pv.villages =~= p.villages@.map(|t: int, v: crate::raw::RawVillage| v@));
            }
            for j in 0..nv
                invariant
                    nv == p.villages@.len(),
                    pv.villages.len() == nv,
                    ids == spec_village_ids(pv.villages),
                    ids.len() == nv,
                    forall|t: int| 0 <= t < nv ==> pv.villages[t] == p.villages@[t]@,
                    kid_opt == if kv_f.contains_key(pv.kingdom_id) {
                        Some(pv.kingdom_id)
                    } else {
                        None::<Id>
                    },
                    pv.player_id == p.player_id,
                    villages.wf(),
                    coord_to_ids.wf(),
                    vv_f == villages_view(villages@),
                    coord_to_ids@ == spec_index_villages(
                        idx0,
                        vv_f,
                        kid_opt,
                        pv.player_id,
                        ids.take(j as int),
                    ),
            {
                let vid = p.villages[j].village_id;
                proof {
                    assert(ids[j as int] == pv.villages[j as int].village_id);
                    assert(ids.take(j + 1).drop_last() =~= ids.take(j as int));
                    assert(ids.take(j + 1).last() == ids[j as int]);
                    assert(vv_f.contains_key(vid) == villages@.contains_key(vid));
                }
                match villages.get(vid) {
                    Some(v) => {
                        proof {
                            assert(vv_f[vid] == villages@[vid]@);
                        }
                        coord_to_ids.insert(v.coords, (kid_opt, p.player_id, vid));
                    },
                    None => {},
                }
            }
            proof {
                assert(ids.take(nv as int) =~= ids);
                assert(dp.take(i + 1).drop_last() =~= dp.take(i as int));
                assert(dp.take(i + 1).last() == pv);
            }
        }
        proof {
            assert(dp.take(np as int) =~= dp);
        }

        let ghost idx_f = coord_to_ids@;
        let mut cells: CoordTable<Cell> = CoordTable::new();
        let nc = data.map.cells.len();
        proof {
            assert(dc.take(0) =~= Seq::<RawCellV>::empty());
        }
        for i in 0..nc
            invariant
                nc == data.map.cells@.len(),
                dc == data@.map.cells,
                dc.len() == nc,
                kingdoms.wf(),
                coord_to_ids.wf(),
                cells.wf(),
                kv_f == kingdoms_view(kingdoms@),
                idx_f == coord_to_ids@,
                cells@ == spec_build_cells(Map::<Coord, Cell>::empty(), kv_f, idx_f, dc.take(
                    i as int,
                )),
        {
            let c = &data.map.cells[i];
            proof {
                assert(dc[i as int] == data.map.cells@[i as int]@);
                assert(kv_f.contains_key(c.kingdom_id) == kingdoms@.contains_key(c.kingdom_id));
                assert(dc.take(i + 1).drop_last() =~= dc.take(i as int));
                assert(dc.take(i + 1).last() == dc[i as int]);
            }
            let influenced = if kingdoms.contains(c.kingdom_id) {
                Some(c.kingdom_id)
            } else {
                None
            };
            let coord = Coord { x: c.x, y: c.y };
            let belongs = match coord_to_ids.get(coord) {
                Some(t) => Some(*t),
                None => None,
            };
            let cell = Cell::new(c.res_type.as_str(), c.oasis.as_str(), influenced, belongs);
            cells.insert(coord, cell);
        }
        proof {
            assert(dc.take(nc as int) =~= dc);
        }

        let w = GameWorld { radius: data.map.radius, kingdoms, players, villages, cells };
        Ok(w)
    }

    /// Parse a raw snapshot text and build the world from it.
    pub fn from_raw_data(raw_data: &str) -> (r: Result<GameWorld, WorldError>)
        ensures
            r matches Ok(w) ==> w.wf() && (json_of(raw_data@) matches Some(jv)
                && (spec_decode_response(jv) matches Ok(d) && spec_build(d) == Ok::<
                GameWorldV,
                WorldErrorV,
            >(w@))),
            r matches Err(e) ==> match json_of(raw_data@) {
                Option::None => e@ matches WorldErrorV::Parse(_),
                Option::Some(jv) => match spec_decode_response(jv) {
                    Err(de) => de == e@,
                    Ok(d) => spec_build(d) == Err::<GameWorldV, WorldErrorV>(e@),
                },
            },
    {
        let data = match crate::raw::parse_raw_map_data(raw_data) {
            Ok(d) => d,
            Err(e) => return Err(e),
        };
        GameWorld::from_data(&data)
    }
}

/// The villages owned by a player, resolved against the village table, in the
/// player's owned-village order; empty for an unknown player.
pub open spec fn spec_resolve_villages(villages: Map<Id, VillageV>, ids: Seq<Id>) -> Seq<VillageV>
    decreases ids.len(),
{
    if ids.len() == 0 {
        Seq::empty()
    } else {
        let rest = spec_resolve_villages(villages, ids.drop_last());
        if villages.contains_key(ids.last()) {
            rest.push(villages[ids.last()])
        } else {
            rest
        }
    }
}

pub open spec fn spec_player_villages(w: GameWorldV, pid: Id) -> Seq<VillageV> {
    if w.players.contains_key(pid) {
        spec_resolve_villages(w.villages, w.players[pid].village_ids)
    } else {
        Seq::empty()
    }
}

/// The villages of a kingdom: the union over its members, in the kingdom's
/// player order, then each player's village order.
pub open spec fn spec_players_villages(w: GameWorldV, pids: Seq<Id>) -> Seq<VillageV>
    decreases pids.len(),
{
    if pids.len() == 0 {
        Seq::empty()
    } else {
        spec_players_villages(w, pids.drop_last()) + spec_player_villages(w, pids.last())
    }
}

pub open spec fn spec_kingdom_villages(w: GameWorldV, kid: Id) -> Seq<VillageV> {
    if w.kingdoms.contains_key(kid) {
        spec_players_villages(w, w.kingdoms[kid].player_ids)
    } else {
        Seq::empty()
    }
}

impl GameWorld {
    /// The villages owned by player `pid`, empty for an unknown player.
    pub fn player_villages(&self, pid: &Id) -> (r: Vec<Village>)
        requires
            self.wf(),
        ensures
            r@.map(|i: int, v: Village| v@) == spec_player_villages(self@, *pid),
    {
        let mut out: Vec<Village> = Vec::new();
        proof {
            assert(out@.map(|i: int, v: Village| v@) =~= Seq::<VillageV>::empty());
            assert(self@.players.contains_key(*pid) == self.players@.contains_key(*pid));
        }
        if let Some(p) = self.players.get(*pid) {
            proof {
                assert(self@.players[*pid] == self.players@[*pid]@);
            }
            let ghost ids = self@.players[*pid].village_ids;
            let n = p.village_ids.len();
            proof {
                assert(ids.take(0) =~= Seq::<Id>::empty());
            }
            for i in 0..n
                invariant
                    n == p.village_ids@.len(),
                    ids == p.village_ids@,
                    self.wf(),
                    out@.map(|t: int, v: Village| v@) == spec_resolve_villages(
                        self@.villages,
                        ids.take(i as int),
                    ),
            {
                let vid = p.village_ids[i];
                proof {
                    assert(ids.take(i + 1).drop_last() =~= ids.take(i as int));
                    assert(ids.take(i + 1).last() == ids[i as int]);
                    assert(self@.villages.contains_key(vid) == self.villages@.contains_key(vid));
                }
                let ghost prev = out@;
                match self.villages.get(vid) {
                    Some(v) => {
                        proof {
                            assert(self@.villages[vid] == self.villages@[vid]@);
                        }
                        let copy = v.duplicate();
                        out.push(copy);
                        proof {
                            assert(out@.map(|t: int, v: Village| v@) =~= prev.map(
                                |t: int, v: Village| v@,
                            ).push(self@.villages[vid]));
                        }
                    },
                    None => {},
                }
            }
            proof {
                assert(ids.take(n as int) =~= ids);
            }
        }
        out
    }

    /// The villages owned by kingdom `kid` through its member players, empty
    /// for an unknown kingdom.
    pub fn kingdom_villages(&self, kid: &Id) -> (r: Vec<Village>)
        requires
            self.wf(),
        ensures
            r@.map(|i: int, v: Village| v@) == spec_kingdom_villages(self@, *kid),
    {
        let mut out: Vec<Village> = Vec::new();
        proof {
            assert(out@.map(|i: int, v: Village| v@) =~= Seq::<VillageV>::empty());
            assert(self@.kingdoms.contains_key(*kid) == self.kingdoms@.contains_key(*kid));
        }
        if let Some(k) = self.kingdoms.get(*kid) {
            proof {
                assert(self@.kingdoms[*kid] == self.kingdoms@[*kid]@);
            }
            let ghost pids = self@.kingdoms[*kid].player_ids;
            let n = k.player_ids.len();
            proof {
                assert(pids.take(0) =~= Seq::<Id>::empty());
            }
            for i in 0..n
                invariant
                    n == k.player_ids@.len(),
                    pids == k.player_ids@,
                    self.wf(),
                    out@.map(|t: int, v: Village| v@) == spec_players_villages(
                        self@,
                        pids.take(i as int),
                    ),
            {
                let pid = k.player_ids[i];
                let mut pv = self.player_villages(&pid);
                let ghost prev = out@;
                let ghost pvs = pv@;
                out.append(&mut pv);
                proof {
                    assert(pids.take(i + 1).drop_last() =~= pids.take(i as int));
                    assert(pids.take(i + 1).last() == pids[i as int]);
                    assert(out@ == prev + pvs);
                    assert(out@.map(|t: int, v: Village| v@) =~= prev.map(|t: int, v: Village| v@)
                        + pvs.map(|t: int, v: Village| v@));
                }
            }
            proof {
                assert(pids.take(n as int) =~= pids);
            }
        }
        out
    }
}

/// Every village id in a player's owned-village list is a key of the village
/// table.
pub open spec fn villages_closed(players: Map<Id, PlayerV>, villages: Map<Id, VillageV>) -> bool {
    forall|pid: Id, i: int|
        players.contains_key(pid) && 0 <= i < players[pid].village_ids.len()
            ==> villages.contains_key(#[trigger] players[pid].village_ids[i])
}

/// Every player id in a kingdom's owned-player list is a key of the player
/// table.
pub open spec fn members_closed(kingdoms: Map<Id, KingdomV>, players: Map<Id, PlayerV>) -> bool {
    forall|kid: Id, i: int|
        kingdoms.contains_key(kid) && 0 <= i < kingdoms[kid].player_ids.len()
            ==> players.contains_key(#[trigger] kingdoms[kid].player_ids[i])
}

proof fn lemma_add_villages_keys(m: Map<Id, VillageV>, vs: Seq<RawVillageV>)
    ensures
        forall|k: Id| m.contains_key(k) ==> spec_add_villages(m, vs).contains_key(k),
        forall|i: int|
            0 <= i < vs.len() ==> spec_add_villages(m, vs).contains_key(
                #[trigger] vs[i].village_id,
            ),
    decreases vs.len(),
{
    if vs.len() > 0 {
        lemma_add_villages_keys(m, vs.drop_last());
        assert(forall|i: int| 0 <= i < vs.len() - 1 ==> vs.drop_last()[i] == vs[i]);
    }
}

proof fn lemma_add_player_closed(st: BuildState, p: RawPlayerV, st2: BuildState)
    requires
        villages_closed(st.1, st.2),
        spec_add_player(st, p) == Ok::<BuildState, WorldErrorV>(st2),
    ensures
        villages_closed(st2.1, st2.2),
{
    lemma_add_villages_keys(st.2, p.villages);
    assert forall|pid: Id, i: int|
        st2.1.contains_key(pid) && 0 <= i < st2.1[pid].village_ids.len() implies st2.2.contains_key(
        #[trigger] st2.1[pid].village_ids[i],
    ) by {
        if pid == p.player_id {
            assert(st2.1[pid].village_ids == spec_village_ids(p.villages));
            assert(st2.1[pid].village_ids[i] == p.villages[i].village_id);
        } else {
            assert(st.1.contains_key(pid) && st.1[pid] == st2.1[pid]);
        }
    }
}

proof fn lemma_add_players_closed(st: BuildState, ps: Seq<RawPlayerV>)
    requires
        villages_closed(st.1, st.2),
    ensures
        spec_add_players(st, ps) matches Ok(st2) ==> villages_closed(st2.1, st2.2),
    decreases ps.len(),
{
    if ps.len() > 0 {
        lemma_add_players_closed(st, ps.drop_last());
        if spec_add_players(st, ps) is Ok {
            let st1 = spec_add_players(st, ps.drop_last())->Ok_0;
            let st2 = spec_add_players(st, ps)->Ok_0;
            lemma_add_player_closed(st1, ps.last(), st2);
        }
    }
}

/// Referential closure of village ownership: in any world the build produces,
/// every village id in a player's owned-village list is a key of the village
/// table.
pub proof fn lemma_build_villages_closed(d: RawMapDataV, w: GameWorldV)
    requires
        spec_build(d) == Ok::<GameWorldV, WorldErrorV>(w),
    ensures
        villages_closed(w.players, w.villages),
{
    let init: BuildState = (
        spec_build_kingdoms(d.kingdoms),
        Map::<Id, PlayerV>::empty(),
        Map::<Id, VillageV>::empty(),
    );
    assert(villages_closed(init.1, init.2));
    lemma_add_players_closed(init, d.players);
}

proof fn lemma_build_kingdoms_empty_members(ks: Seq<RawKingdomV>)
    ensures
        forall|kid: Id| #[trigger]
            spec_build_kingdoms(ks).contains_key(kid) ==> spec_build_kingdoms(
                ks,
            )[kid].player_ids.len() == 0,
    decreases ks.len(),
{
    if ks.len() > 0 {
        lemma_build_kingdoms_empty_members(ks.drop_last());
        assert forall|kid: Id| #[trigger]
            spec_build_kingdoms(ks).contains_key(kid) implies spec_build_kingdoms(
            ks,
        )[kid].player_ids.len() == 0 by {
            if kid != ks.last().kingdom_id {
                assert(spec_build_kingdoms(ks.drop_last()).contains_key(kid));
            }
        }
    }
}

proof fn lemma_add_player_members(st: BuildState, p: RawPlayerV, st2: BuildState)
    requires
        members_closed(st.0, st.1),
        spec_add_player(st, p) == Ok::<BuildState, WorldErrorV>(st2),
    ensures
        members_closed(st2.0, st2.1),
{
    assert forall|kid: Id, i: int|
        st2.0.contains_key(kid) && 0 <= i < st2.0[kid].player_ids.len() implies st2.1.contains_key(
        #[trigger] st2.0[kid].player_ids[i],
    ) by {
        if st.0.contains_key(p.kingdom_id) && kid == p.kingdom_id {
            if i < st.0[kid].player_ids.len() {
                assert(st2.0[kid].player_ids[i] == st.0[kid].player_ids[i]);
                assert(st.1.contains_key(st.0[kid].player_ids[i]));
            } else {
                assert(st2.0[kid].player_ids[i] == p.player_id);
            }
        } else {
            assert(st2.0[kid] == st.0[kid]);
            assert(st.1.contains_key(st.0[kid].player_ids[i]));
        }
    }
}

proof fn lemma_add_players_members(st: BuildState, ps: Seq<RawPlayerV>)
    requires
        members_closed(st.0, st.1),
    ensures
        spec_add_players(st, ps) matches Ok(st2) ==> members_closed(st2.0, st2.1),
    decreases ps.len(),
{
    if ps.len() > 0 {
        lemma_add_players_members(st, ps.drop_last());
        if spec_add_players(st, ps) is Ok {
            let st1 = spec_add_players(st, ps.drop_last())->Ok_0;
            let st2 = spec_add_players(st, ps)->Ok_0;
            lemma_add_player_members(st1, ps.last(), st2);
        }
    }
}

/// Referential closure of kingdom membership: in any world the build
/// produces, every player id in a kingdom's owned-player list is a key of the
/// player table.
pub proof fn lemma_build_members_closed(d: RawMapDataV, w: GameWorldV)
    requires
        spec_build(d) == Ok::<GameWorldV, WorldErrorV>(w),
    ensures
        members_closed(w.kingdoms, w.players),
{
    let init: BuildState = (
        spec_build_kingdoms(d.kingdoms),
        Map::<Id, PlayerV>::empty(),
        Map::<Id, VillageV>::empty(),
    );
    lemma_build_kingdoms_empty_members(d.kingdoms);
    assert(members_closed(init.0, init.1));
    lemma_add_players_members(init, d.players);
}

proof fn lemma_add_players_kingdom_dom(st: BuildState, ps: Seq<RawPlayerV>)
    ensures
        spec_add_players(st, ps) matches Ok(st2) ==> st2.0.dom() == st.0.dom(),
    decreases ps.len(),
{
    if ps.len() > 0 {
        lemma_add_players_kingdom_dom(st, ps.drop_last());
        if spec_add_players(st, ps) is Ok {
            let st1 = spec_add_players(st, ps.drop_last())->Ok_0;
            let st2 = spec_add_players(st, ps)->Ok_0;
            let p = ps.last();
            if st1.0.contains_key(p.kingdom_id) {
                assert(st2.0.dom() =~= st1.0.dom());
            }
        }
    }
}

proof fn lemma_add_players_excludes(st: BuildState, ps: Seq<RawPlayerV>, pid: Id)
    requires
        forall|kid: Id| #[trigger] st.0.contains_key(kid) ==> !st.0[kid].player_ids.contains(pid),
        forall|j: int|
            0 <= j < ps.len() && (#[trigger] ps[j]).player_id == pid ==> !st.0.contains_key(
                ps[j].kingdom_id,
            ),
    ensures
        spec_add_players(st, ps) matches Ok(st2) ==> forall|kid: Id| #[trigger]
            st2.0.contains_key(kid) ==> !st2.0[kid].player_ids.contains(pid),
    decreases ps.len(),
{
    if ps.len() > 0 {
        assert(forall|j: int| 0 <= j < ps.len() - 1 ==> ps.drop_last()[j] == ps[j]);
        lemma_add_players_excludes(st, ps.drop_last(), pid);
        if spec_add_players(st, ps) is Ok {
            let st1 = spec_add_players(st, ps.drop_last())->Ok_0;
            let st2 = spec_add_players(st, ps)->Ok_0;
            let p = ps.last();
            lemma_add_players_kingdom_dom(st, ps.drop_last());
            assert forall|kid: Id| #[trigger]
                st2.0.contains_key(kid) implies !st2.0[kid].player_ids.contains(pid) by {
                if st1.0.contains_key(p.kingdom_id) && kid == p.kingdom_id {
                    if p.player_id == pid {
                        assert(!st.0.contains_key(p.kingdom_id));
                        assert(false);
                    }
                    let ids = st1.0[kid].player_ids;
                    assert(st2.0[kid].player_ids == ids.push(p.player_id));
                    if ids.push(p.player_id).contains(pid) {
                        let t = choose|t: int|
                            0 <= t < ids.push(p.player_id).len() && ids.push(p.player_id)[t]
                                == pid;
                        if t < ids.len() {
                            assert(ids[t] == pid);
                            assert(ids.contains(pid));
                        }
                        assert(false);
                    }
                } else {
                    assert(st2.0[kid] == st1.0[kid]);
                }
            }
        }
    }
}

proof fn lemma_add_players_has(st: BuildState, ps: Seq<RawPlayerV>, i: int)
    requires
        0 <= i < ps.len(),
        spec_add_players(st, ps) is Ok,
    ensures
        spec_add_players(st, ps)->Ok_0.1.contains_key(ps[i].player_id),
    decreases ps.len(),
{
    if i == ps.len() - 1 {
    } else {
        assert(ps.drop_last()[i] == ps[i]);
        lemma_add_players_has(st, ps.drop_last(), i);
    }
}

/// A player whose declared kingdom id matches no kingdom is still present in
/// the player table and stands in no kingdom's owned-player list. The premise
/// covers every snapshot record carrying that player id, since each such
/// record could enrol the id in a kingdom.
pub proof fn lemma_kingdomless_player(d: RawMapDataV, w: GameWorldV, i: int)
    requires
        spec_build(d) == Ok::<GameWorldV, WorldErrorV>(w),
        0 <= i < d.players.len(),
        forall|j: int|
            0 <= j < d.players.len() && (#[trigger] d.players[j]).player_id
                == d.players[i].player_id ==> !spec_build_kingdoms(d.kingdoms).contains_key(
                d.players[j].kingdom_id,
            ),
    ensures
        w.players.contains_key(d.players[i].player_id),
        forall|kid: Id| #[trigger]
            w.kingdoms.contains_key(kid) ==> !w.kingdoms[kid].player_ids.contains(
                d.players[i].player_id,
            ),
{
    let pid = d.players[i].player_id;
    let init: BuildState = (
        spec_build_kingdoms(d.kingdoms),
        Map::<Id, PlayerV>::empty(),
        Map::<Id, VillageV>::empty(),
    );
    lemma_build_kingdoms_empty_members(d.kingdoms);
    assert forall|kid: Id| #[trigger] init.0.contains_key(kid) implies !init.0[kid].player_ids
        .contains(pid) by {
        assert(init.0[kid].player_ids.len() == 0);
    }
    lemma_add_players_excludes(init, d.players, pid);
    lemma_add_players_has(init, d.players, i);
}

/// The id of the first entry, in table-entry order, whose display name is
/// `key`.
pub open spec fn spec_search_by_name<T: Named>(s: Seq<(Id, T)>, key: Seq<char>) -> Option<Id>
    decreases s.len(),
{
    if s.len() == 0 {
        None
    } else if s[0].1.spec_name() == key {
        Some(s[0].0)
    } else {
        spec_search_by_name(s.drop_first(), key)
    }
}

proof fn lemma_search_hit<T: Named>(s: Seq<(Id, T)>, key: Seq<char>, i: int)
    requires
        0 <= i < s.len(),
        forall|k: int| 0 <= k < i ==> s[k].1.spec_name() != key,
        s[i].1.spec_name() == key,
    ensures
        spec_search_by_name(s, key) == Some(s[i].0),
    decreases i,
{
    if i > 0 {
        lemma_search_hit(s.drop_first(), key, i - 1);
    }
}

proof fn lemma_search_miss<T: Named>(s: Seq<(Id, T)>, key: Seq<char>)
    requires
        forall|k: int| 0 <= k < s.len() ==> s[k].1.spec_name() != key,
    ensures
        spec_search_by_name(s, key) is None,
    decreases s.len(),
{
    if s.len() > 0 {
        lemma_search_miss(s.drop_first(), key);
    }
}

/// Find the id of the entity with the given display name in a table: the
/// first match in entry order, or `None` where no entry carries the name.
pub fn search_by_name<T: Named>(map: &IdTable<T>, key: &str) -> (r: Option<Id>)
    requires
        map.wf(),
    ensures
        r == spec_search_by_name(map.entries(), key@),
        match r {
            Some(id) => map@.contains_key(id) && map@[id].spec_name() == key@,
            None => forall|id: Id| map@.contains_key(id) ==> map@[id].spec_name() != key@,
        },
{
    let n = map.num_entries();
    for i in 0..n
        invariant
            map.wf(),
            n == map.entries().len(),
            forall|t: int| 0 <= t < i ==> map.entries()[t].1.spec_name() != key@,
    {
        let e = map.entry_at(i);
        if str_eq(e.1.name(), key) {
            proof {
                lemma_search_hit(map.entries(), key@, i as int);
            }
            return Some(e.0);
        }
    }
    proof {
        lemma_search_miss(map.entries(), key@);
        map.lemma_entries_map();
    }
    None
}


} // verus!

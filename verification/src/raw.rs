use vstd::prelude::*;
use crate::json::{
    obj_get, spec_parse_i64, json_arr_view, json_obj_view, lemma_json_arr_view_len,
    lemma_json_obj_view_len, parse_i64, parse_json, json_of, Json, JsonV,
};

verus! {

/// Why a snapshot could not be turned into a world.
#[derive(Debug, PartialEq, Eq)]
pub enum WorldError {
    /// The text is not well-formed JSON; carries the parser's message.
    Parse(String),
    /// A required field is absent; carries the field name.
    MissingField(String),
    /// A field has an unexpected shape; carries the field name.
    WrongType(String),
    /// A tribe code outside the known set; carries the code.
    UnknownTribe(String),
    /// A role code outside the known set; carries the code.
    UnknownRole(i64),
}

pub enum WorldErrorV {
    Parse(Seq<char>),
    MissingField(Seq<char>),
    WrongType(Seq<char>),
    UnknownTribe(Seq<char>),
    UnknownRole(i64),
}

impl View for WorldError {
    type V = WorldErrorV;

    open spec fn view(&self) -> WorldErrorV {
        match self {
            WorldError::Parse(m) => WorldErrorV::Parse(m@),
            WorldError::MissingField(f) => WorldErrorV::MissingField(f@),
            WorldError::WrongType(f) => WorldErrorV::WrongType(f@),
            WorldError::UnknownTribe(c) => WorldErrorV::UnknownTribe(c@),
            WorldError::UnknownRole(c) => WorldErrorV::UnknownRole(*c),
        }
    }
}

/// The field under `key` of a JSON object, `None` for a non-object or a
/// missing key.
pub open spec fn spec_field(j: JsonV, key: Seq<char>) -> Option<JsonV> {
    match j {
        JsonV::Obj(o) => obj_get(o, key),
        _ => None,
    }
}

/// An integer field that must be a JSON number.
pub open spec fn spec_get_int(j: JsonV, key: Seq<char>) -> Result<i64, WorldErrorV> {
    match spec_field(j, key) {
        Option::None => Err(WorldErrorV::MissingField(key)),
        Option::Some(JsonV::Int(i)) => Ok(i),
        Option::Some(_) => Err(WorldErrorV::WrongType(key)),
    }
}

/// An integer field that may be a JSON number or a numeric string: both
/// spellings coerce to the same integer.
pub open spec fn spec_get_coerced(j: JsonV, key: Seq<char>) -> Result<i64, WorldErrorV> {
    match spec_field(j, key) {
        Option::None => Err(WorldErrorV::MissingField(key)),
        Option::Some(JsonV::Int(i)) => Ok(i),
        Option::Some(JsonV::Str(s)) => match spec_parse_i64(s) {
            Option::Some(i) => Ok(i),
            Option::None => Err(WorldErrorV::WrongType(key)),
        },
        Option::Some(_) => Err(WorldErrorV::WrongType(key)),
    }
}

pub open spec fn spec_get_str(j: JsonV, key: Seq<char>) -> Result<Seq<char>, WorldErrorV> {
    match spec_field(j, key) {
        Option::None => Err(WorldErrorV::MissingField(key)),
        Option::Some(JsonV::Str(s)) => Ok(s),
        Option::Some(_) => Err(WorldErrorV::WrongType(key)),
    }
}

pub open spec fn spec_get_bool(j: JsonV, key: Seq<char>) -> Result<bool, WorldErrorV> {
    match spec_field(j, key) {
        Option::None => Err(WorldErrorV::MissingField(key)),
        Option::Some(JsonV::Bool(b)) => Ok(b),
        Option::Some(_) => Err(WorldErrorV::WrongType(key)),
    }
}

pub open spec fn spec_get_arr(j: JsonV, key: Seq<char>) -> Result<Seq<JsonV>, WorldErrorV> {
    match spec_field(j, key) {
        Option::None => Err(WorldErrorV::MissingField(key)),
        Option::Some(JsonV::Arr(a)) => Ok(a),
        Option::Some(_) => Err(WorldErrorV::WrongType(key)),
    }
}

pub open spec fn spec_get_obj(j: JsonV, key: Seq<char>) -> Result<
    Seq<(Seq<char>, JsonV)>,
    WorldErrorV,
> {
    match spec_field(j, key) {
        Option::None => Err(WorldErrorV::MissingField(key)),
        Option::Some(JsonV::Obj(o)) => Ok(o),
        Option::Some(_) => Err(WorldErrorV::WrongType(key)),
    }
}

fn get_field<'a>(j: &'a Json, key: &str) -> (r: Option<&'a Json>)
    ensures
        match r {
            Some(f) => spec_field(j@, key@) == Some(f@),
            None => spec_field(j@, key@) is None,
        },
{
    j.get(key)
}

fn get_int(j: &Json, key: &str) -> (r: Result<i64, WorldError>)
    ensures
        r matches Ok(v) ==> spec_get_int(j@, key@) == Ok::<i64, WorldErrorV>(v),
        r matches Err(e) ==> spec_get_int(j@, key@) == Err::<i64, WorldErrorV>(e@),
{
    match get_field(j, key) {
        None => Err(WorldError::MissingField(key.to_owned())),
        Some(Json::Int(i)) => Ok(*i),
        Some(_) => Err(WorldError::WrongType(key.to_owned())),
    }
}

fn get_coerced(j: &Json, key: &str) -> (r: Result<i64, WorldError>)
    ensures
        r matches Ok(v) ==> spec_get_coerced(j@, key@) == Ok::<i64, WorldErrorV>(v),
        r matches Err(e) ==> spec_get_coerced(j@, key@) == Err::<i64, WorldErrorV>(e@),
{
    match get_field(j, key) {
        None => Err(WorldError::MissingField(key.to_owned())),
        Some(Json::Int(i)) => Ok(*i),
        Some(Json::Str(s)) => match parse_i64(s.as_str()) {
            Some(i) => Ok(i),
            None => Err(WorldError::WrongType(key.to_owned())),
        },
        Some(_) => Err(WorldError::WrongType(key.to_owned())),
    }
}

fn get_str(j: &Json, key: &str) -> (r: Result<String, WorldError>)
    ensures
        r matches Ok(v) ==> spec_get_str(j@, key@) == Ok::<Seq<char>, WorldErrorV>(v@),
        r matches Err(e) ==> spec_get_str(j@, key@) == Err::<Seq<char>, WorldErrorV>(e@),
{
    match get_field(j, key) {
        None => Err(WorldError::MissingField(key.to_owned())),
        Some(Json::Str(s)) => Ok(s.clone()),
        Some(_) => Err(WorldError::WrongType(key.to_owned())),
    }
}

fn get_bool(j: &Json, key: &str) -> (r: Result<bool, WorldError>)
    ensures
        r matches Ok(v) ==> spec_get_bool(j@, key@) == Ok::<bool, WorldErrorV>(v),
        r matches Err(e) ==> spec_get_bool(j@, key@) == Err::<bool, WorldErrorV>(e@),
{
    match get_field(j, key) {
        None => Err(WorldError::MissingField(key.to_owned())),
        Some(Json::Bool(b)) => Ok(*b),
        Some(_) => Err(WorldError::WrongType(key.to_owned())),
    }
}

fn get_arr<'a>(j: &'a Json, key: &str) -> (r: Result<&'a Vec<Json>, WorldError>)
    ensures
        r matches Ok(a) ==> spec_get_arr(j@, key@) == Ok::<Seq<JsonV>, WorldErrorV>(
            json_arr_view(a@),
        ),
        r matches Err(e) ==> spec_get_arr(j@, key@) == Err::<Seq<JsonV>, WorldErrorV>(e@),
{
    match get_field(j, key) {
        None => Err(WorldError::MissingField(key.to_owned())),
        Some(Json::Arr(a)) => Ok(a),
        Some(_) => Err(WorldError::WrongType(key.to_owned())),
    }
}

fn get_obj<'a>(j: &'a Json, key: &str) -> (r: Result<&'a Vec<(String, Json)>, WorldError>)
    ensures
        r matches Ok(o) ==> spec_get_obj(j@, key@) == Ok::<Seq<(Seq<char>, JsonV)>, WorldErrorV>(
            json_obj_view(o@),
        ),
        r matches Err(e) ==> spec_get_obj(j@, key@) == Err::<Seq<(Seq<char>, JsonV)>, WorldErrorV>(
            e@,
        ),
{
    match get_field(j, key) {
        None => Err(WorldError::MissingField(key.to_owned())),
        Some(Json::Obj(o)) => Ok(o),
        Some(_) => Err(WorldError::WrongType(key.to_owned())),
    }
}

/// Coercion agrees across spellings: a field supplied as a digit string and a
/// field supplied as the number that string denotes decode to the identical
/// integer.
pub proof fn lemma_coercion_agrees(
    j: JsonV,
    skey: Seq<char>,
    nkey: Seq<char>,
    s: Seq<char>,
    n: i64,
)
    requires
        spec_field(j, skey) == Some(JsonV::Str(s)),
        spec_field(j, nkey) == Some(JsonV::Int(n)),
        spec_parse_i64(s) == Some(n),
    ensures
        spec_get_coerced(j, skey) == spec_get_coerced(j, nkey),
        spec_get_coerced(j, skey) == Ok::<i64, WorldErrorV>(n),
{
}

/// One village of a raw snapshot, fields coerced to integers where the
/// upstream source may send either numbers or numeric strings.
pub struct RawVillage {
    pub village_id: i64,
    pub x: i64,
    pub y: i64,
    pub population: i64,
    pub name: String,
    pub is_main_village: bool,
    pub is_city: bool,
}

pub struct RawVillageV {
    pub village_id: i64,
    pub x: i64,
    pub y: i64,
    pub population: i64,
    pub name: Seq<char>,
    pub is_main_village: bool,
    pub is_city: bool,
}

impl View for RawVillage {
    type V = RawVillageV;

    open spec fn view(&self) -> RawVillageV {
        RawVillageV {
            village_id: self.village_id,
            x: self.x,
            y: self.y,
            population: self.population,
            name: self.name@,
            is_main_village: self.is_main_village,
            is_city: self.is_city,
        }
    }
}

pub struct RawPlayer {
    pub player_id: i64,
    pub name: String,
    pub tribe_id: String,
    pub kingdom_id: i64,
    pub treasures: i64,
    pub role: i64,
    pub external_login_token: String,
    pub villages: Vec<RawVillage>,
}

pub struct RawPlayerV {
    pub player_id: i64,
    pub name: Seq<char>,
    pub tribe_id: Seq<char>,
    pub kingdom_id: i64,
    pub treasures: i64,
    pub role: i64,
    pub external_login_token: Seq<char>,
    pub villages: Seq<RawVillageV>,
}

impl View for RawPlayer {
    type V = RawPlayerV;

    open spec fn view(&self) -> RawPlayerV {
        RawPlayerV {
            player_id: self.player_id,
            name: self.name@,
            tribe_id: self.tribe_id@,
            kingdom_id: self.kingdom_id,
            treasures: self.treasures,
            role: self.role,
            external_login_token: self.external_login_token@,
            villages: self.villages@.map(|i: int, v: RawVillage| v@),
        }
    }
}

pub struct RawKingdom {
    pub kingdom_id: i64,
    pub kingdom_tag: String,
    pub creation_time: i64,
    pub victory_points: i64,
}

pub struct RawKingdomV {
    pub kingdom_id: i64,
    pub kingdom_tag: Seq<char>,
    pub creation_time: i64,
    pub victory_points: i64,
}

impl View for RawKingdom {
    type V = RawKingdomV;

    open spec fn view(&self) -> RawKingdomV {
        RawKingdomV {
            kingdom_id: self.kingdom_id,
            kingdom_tag: self.kingdom_tag@,
            creation_time: self.creation_time,
            victory_points: self.victory_points,
        }
    }
}

pub struct RawCell {
    pub id: i64,
    pub x: i64,
    pub y: i64,
    pub res_type: String,
    pub oasis: String,
    pub landscape: i64,
    pub kingdom_id: i64,
}

pub struct RawCellV {
    pub id: i64,
    pub x: i64,
    pub y: i64,
    pub res_type: Seq<char>,
    pub oasis: Seq<char>,
    pub landscape: i64,
    pub kingdom_id: i64,
}

impl View for RawCell {
    type V = RawCellV;

    open spec fn view(&self) -> RawCellV {
        RawCellV {
            id: self.id,
            x: self.x,
            y: self.y,
            res_type: self.res_type@,
            oasis: self.oasis@,
            landscape: self.landscape,
            kingdom_id: self.kingdom_id,
        }
    }
}

pub struct RawMap {
    pub radius: i64,
    pub cells: Vec<RawCell>,
    pub landscapes: Vec<(i64, String)>,
}

pub struct RawMapV {
    pub radius: i64,
    pub cells: Seq<RawCellV>,
    pub landscapes: Seq<(i64, Seq<char>)>,
}

impl View for RawMap {
    type V = RawMapV;

    open spec fn view(&self) -> RawMapV {
        RawMapV {
            radius: self.radius,
            cells: self.cells@.map(|i: int, c: RawCell| c@),
            landscapes: self.landscapes@.map(|i: int, l: (i64, String)| (l.0, l.1@)),
        }
    }
}

pub struct RawGameWorld {
    pub name: String,
    pub start_time: i64,
    pub speed: i64,
    pub speed_troops: i64,
    pub last_update_time: i64,
    pub date: i64,
    pub version: String,
}

pub struct RawGameWorldV {
    pub name: Seq<char>,
    pub start_time: i64,
    pub speed: i64,
    pub speed_troops: i64,
    pub last_update_time: i64,
    pub date: i64,
    pub version: Seq<char>,
}

impl View for RawGameWorld {
    type V = RawGameWorldV;

    open spec fn view(&self) -> RawGameWorldV {
        RawGameWorldV {
            name: self.name@,
            start_time: self.start_time,
            speed: self.speed,
            speed_troops: self.speed_troops,
            last_update_time: self.last_update_time,
            date: self.date,
            version: self.version@,
        }
    }
}

pub struct RawMapData {
    pub gameworld: RawGameWorld,
    pub players: Vec<RawPlayer>,
    pub kingdoms: Vec<RawKingdom>,
    pub map: RawMap,
}

pub struct RawMapDataV {
    pub gameworld: RawGameWorldV,
    pub players: Seq<RawPlayerV>,
    pub kingdoms: Seq<RawKingdomV>,
    pub map: RawMapV,
}

impl View for RawMapData {
    type V = RawMapDataV;

    open spec fn view(&self) -> RawMapDataV {
        RawMapDataV {
            gameworld: self.gameworld@,
            players: self.players@.map(|i: int, p: RawPlayer| p@),
            kingdoms: self.kingdoms@.map(|i: int, k: RawKingdom| k@),
            map: self.map@,
        }
    }
}

pub struct RawResponse {
    pub response: RawMapData,
}

pub struct RawResponseV {
    pub response: RawMapDataV,
}

impl View for RawResponse {
    type V = RawResponseV;

    open spec fn view(&self) -> RawResponseV {
        RawResponseV { response: self.response@ }
    }
}

pub open spec fn spec_decode_village(j: JsonV) -> Result<RawVillageV, WorldErrorV> {
    match spec_get_coerced(j, "villageId"@) {
        Err(e) => Err(e),
        Ok(village_id) => match spec_get_coerced(j, "x"@) {
            Err(e) => Err(e),
            Ok(x) => match spec_get_coerced(j, "y"@) {
                Err(e) => Err(e),
                Ok(y) => match spec_get_coerced(j, "population"@) {
                    Err(e) => Err(e),
                    Ok(population) => match spec_get_str(j, "name"@) {
                        Err(e) => Err(e),
                        Ok(name) => match spec_get_bool(j, "isMainVillage"@) {
                            Err(e) => Err(e),
                            Ok(is_main_village) => match spec_get_bool(j, "isCity"@) {
                                Err(e) => Err(e),
                                Ok(is_city) => Ok(
                                    RawVillageV {
                                        village_id,
                                        x,
                                        y,
                                        population,
                                        name,
                                        is_main_village,
                                        is_city,
                                    },
                                ),
                            },
                        },
                    },
                },
            },
        },
    }
}

fn decode_village(j: &Json) -> (r: Result<RawVillage, WorldError>)
    ensures
        r matches Ok(v) ==> spec_decode_village(j@) == Ok::<RawVillageV, WorldErrorV>(v@),
        r matches Err(e) ==> spec_decode_village(j@) == Err::<RawVillageV, WorldErrorV>(e@),
{
    let village_id = match get_coerced(j, "villageId") {
        Ok(v) => v,
        Err(e) => return Err(e),
    };
    let x = match get_coerced(j, "x") {
        Ok(v) => v,
        Err(e) => return Err(e),
    };
    let y = match get_coerced(j, "y") {
        Ok(v) => v,
        Err(e) => return Err(e),
    };
    let population = match get_coerced(j, "population") {
        Ok(v) => v,
        Err(e) => return Err(e),
    };
    let name = match get_str(j, "name") {
        Ok(v) => v,
        Err(e) => return Err(e),
    };
    let is_main_village = match get_bool(j, "isMainVillage") {
        Ok(v) => v,
        Err(e) => return Err(e),
    };
    let is_city = match get_bool(j, "isCity") {
        Ok(v) => v,
        Err(e) => return Err(e),
    };
    Ok(RawVillage { village_id, x, y, population, name, is_main_village, is_city })
}

pub open spec fn spec_decode_villages(s: Seq<JsonV>) -> Result<Seq<RawVillageV>, WorldErrorV>
    decreases s.len(),
{
    if s.len() == 0 {
        Ok(Seq::empty())
    } else {
        match spec_decode_villages(s.drop_last()) {
            Err(e) => Err(e),
            Ok(rest) => match spec_decode_village(s.last()) {
                Err(e) => Err(e),
                Ok(v) => Ok(rest.push(v)),
            },
        }
    }
}

proof fn lemma_decode_villages_err(s: Seq<JsonV>, m: int)
    requires
        0 <= m <= s.len(),
        spec_decode_villages(s.take(m)) is Err,
    ensures
        spec_decode_villages(s) == spec_decode_villages(s.take(m)),
    decreases s.len() - m,
{
    if m < s.len() {
        assert(s.take(m + 1).drop_last() =~= s.take(m));
        lemma_decode_villages_err(s, m + 1);
    } else {
        assert(s.take(m) =~= s);
    }
}

fn decode_villages(arr: &Vec<Json>) -> (r: Result<Vec<RawVillage>, WorldError>)
    ensures
        r matches Ok(vs) ==> spec_decode_villages(json_arr_view(arr@)) == Ok::<
            Seq<RawVillageV>,
            WorldErrorV,
        >(vs@.map(|i: int, v: RawVillage| v@)),
        r matches Err(e) ==> spec_decode_villages(json_arr_view(arr@)) == Err::<
            Seq<RawVillageV>,
            WorldErrorV,
        >(e@),
{
    proof {
        lemma_json_arr_view_len(arr@);
    }
    let ghost full = json_arr_view(arr@);
    let mut out: Vec<RawVillage> = Vec::new();
    proof {
        assert(out@.map(|k: int, v: RawVillage| v@) =~= Seq::<RawVillageV>::empty());
    }
    let n = arr.len();
    for i in 0..n
        invariant
            n == arr@.len(),
            full == json_arr_view(arr@),
            full.len() == n,
            forall|k: int| 0 <= k < n ==> full[k] == arr@[k]@,
            out@.len() == i,
            spec_decode_villages(full.take(i as int)) == Ok::<Seq<RawVillageV>, WorldErrorV>(
                out@.map(|k: int, v: RawVillage| v@),
            ),
    {
        let ghost prev = out@;
        match decode_village(&arr[i]) {
            Ok(v) => {
                proof {
                    assert(full.take(i + 1).drop_last() =~= full.take(i as int));
                    assert(full.take(i + 1).last() == full[i as int]);
                    assert(prev.push(v).map(|k: int, x: RawVillage| x@) =~= prev.map(
                        |k: int, x: RawVillage| x@,
                    ).push(v@));
                }
                out.push(v);
            },
            Err(e) => {
                proof {
                    assert(full.take(i + 1).drop_last() =~= full.take(i as int));
                    assert(full.take(i + 1).last() == full[i as int]);
                    lemma_decode_villages_err(full, i + 1);
                }
                return Err(e);
            },
        }
    }
    proof {
        assert(full.take(n as int) =~= full);
    }
    Ok(out)
}

pub open spec fn spec_decode_player(j: JsonV) -> Result<RawPlayerV, WorldErrorV> {
    match spec_get_coerced(j, "playerId"@) {
        Err(e) => Err(e),
        Ok(player_id) => match spec_get_str(j, "name"@) {
            Err(e) => Err(e),
            Ok(name) => match spec_get_str(j, "tribeId"@) {
                Err(e) => Err(e),
                Ok(tribe_id) => match spec_get_coerced(j, "kingdomId"@) {
                    Err(e) => Err(e),
                    Ok(kingdom_id) => match spec_get_int(j, "treasures"@) {
                        Err(e) => Err(e),
                        Ok(treasures) => match spec_get_int(j, "role"@) {
                            Err(e) => Err(e),
                            Ok(role) => match spec_get_str(j, "externalLoginToken"@) {
                                Err(e) => Err(e),
                                Ok(external_login_token) => match spec_get_arr(j, "villages"@) {
                                    Err(e) => Err(e),
                                    Ok(varr) => match spec_decode_villages(varr) {
                                        Err(e) => Err(e),
                                        Ok(villages) => Ok(
                                            RawPlayerV {
                                                player_id,
                                                name,
                                                tribe_id,
                                                kingdom_id,
                                                treasures,
                                                role,
                                                external_login_token,
                                                villages,
                                            },
                                        ),
                                    },
                                },
                            },
                        },
                    },
                },
            },
        },
    }
}

fn decode_player(j: &Json) -> (r: Result<RawPlayer, WorldError>)
    ensures
        r matches Ok(p) ==> spec_decode_player(j@) == Ok::<RawPlayerV, WorldErrorV>(p@),
        r matches Err(e) ==> spec_decode_player(j@) == Err::<RawPlayerV, WorldErrorV>(e@),
{
    let player_id = match get_coerced(j, "playerId") {
        Ok(v) => v,
        Err(e) => return Err(e),
    };
    let name = match get_str(j, "name") {
        Ok(v) => v,
        Err(e) => return Err(e),
    };
    let tribe_id = match get_str(j, "tribeId") {
        Ok(v) => v,
        Err(e) => return Err(e),
    };
    let kingdom_id = match get_coerced(j, "kingdomId") {
        Ok(v) => v,
        Err(e) => return Err(e),
    };
    let treasures = match get_int(j, "treasures") {
        Ok(v) => v,
        Err(e) => return Err(e),
    };
    let role = match get_int(j, "role") {
        Ok(v) => v,
        Err(e) => return Err(e),
    };
    let external_login_token = match get_str(j, "externalLoginToken") {
        Ok(v) => v,
        Err(e) => return Err(e),
    };
    let varr = match get_arr(j, "villages") {
        Ok(v) => v,
        Err(e) => return Err(e),
    };
    let villages = match decode_villages(varr) {
        Ok(v) => v,
        Err(e) => return Err(e),
    };
    Ok(
        RawPlayer {
            player_id,
            name,
            tribe_id,
            kingdom_id,
            treasures,
            role,
            external_login_token,
            villages,
        },
    )
}

pub open spec fn spec_decode_players(s: Seq<JsonV>) -> Result<Seq<RawPlayerV>, WorldErrorV>
    decreases s.len(),
{
    if s.len() == 0 {
        Ok(Seq::empty())
    } else {
        match spec_decode_players(s.drop_last()) {
            Err(e) => Err(e),
            Ok(rest) => match spec_decode_player(s.last()) {
                Err(e) => Err(e),
                Ok(p) => Ok(rest.push(p)),
            },
        }
    }
}

proof fn lemma_decode_players_err(s: Seq<JsonV>, m: int)
    requires
        0 <= m <= s.len(),
        spec_decode_players(s.take(m)) is Err,
    ensures
        spec_decode_players(s) == spec_decode_players(s.take(m)),
    decreases s.len() - m,
{
    if m < s.len() {
        assert(s.take(m + 1).drop_last() =~= s.take(m));
        lemma_decode_players_err(s, m + 1);
    } else {
        assert(s.take(m) =~= s);
    }
}

fn decode_players(arr: &Vec<Json>) -> (r: Result<Vec<RawPlayer>, WorldError>)
    ensures
        r matches Ok(ps) ==> spec_decode_players(json_arr_view(arr@)) == Ok::<
            Seq<RawPlayerV>,
            WorldErrorV,
        >(ps@.map(|i: int, p: RawPlayer| p@)),
        r matches Err(e) ==> spec_decode_players(json_arr_view(arr@)) == Err::<
            Seq<RawPlayerV>,
            WorldErrorV,
        >(e@),
{
    proof {
        lemma_json_arr_view_len(arr@);
    }
    let ghost full = json_arr_view(arr@);
    let mut out: Vec<RawPlayer> = Vec::new();
    proof {
        assert(out@.map(|k: int, p: RawPlayer| p@) =~= Seq::<RawPlayerV>::empty());
    }
    let n = arr.len();
    for i in 0..n
        invariant
            n == arr@.len(),
            full == json_arr_view(arr@),
            full.len() == n,
            forall|k: int| 0 <= k < n ==> full[k] == arr@[k]@,
            out@.len() == i,
            spec_decode_players(full.take(i as int)) == Ok::<Seq<RawPlayerV>, WorldErrorV>(
                out@.map(|k: int, p: RawPlayer| p@),
            ),
    {
        let ghost prev = out@;
        match decode_player(&arr[i]) {
            Ok(p) => {
                proof {
                    assert(full.take(i + 1).drop_last() =~= full.take(i as int));
                    assert(full.take(i + 1).last() == full[i as int]);
                    assert(prev.push(p).map(|k: int, x: RawPlayer| x@) =~= prev.map(
                        |k: int, x: RawPlayer| x@,
                    ).push(p@));
                }
                out.push(p);
            },
            Err(e) => {
                proof {
                    assert(full.take(i + 1).drop_last() =~= full.take(i as int));
                    assert(full.take(i + 1).last() == full[i as int]);
                    lemma_decode_players_err(full, i + 1);
                }
                return Err(e);
            },
        }
    }
    proof {
        assert(full.take(n as int) =~= full);
    }
    Ok(out)
}

pub open spec fn spec_decode_kingdom(j: JsonV) -> Result<RawKingdomV, WorldErrorV> {
    match spec_get_coerced(j, "kingdomId"@) {
        Err(e) => Err(e),
        Ok(kingdom_id) => match spec_get_str(j, "kingdomTag"@) {
            Err(e) => Err(e),
            Ok(kingdom_tag) => match spec_get_coerced(j, "creationTime"@) {
                Err(e) => Err(e),
                Ok(creation_time) => match spec_get_coerced(j, "victoryPoints"@) {
                    Err(e) => Err(e),
                    Ok(victory_points) => Ok(
                        RawKingdomV { kingdom_id, kingdom_tag, creation_time, victory_points },
                    ),
                },
            },
        },
    }
}

fn decode_kingdom(j: &Json) -> (r: Result<RawKingdom, WorldError>)
    ensures
        r matches Ok(k) ==> spec_decode_kingdom(j@) == Ok::<RawKingdomV, WorldErrorV>(k@),
        r matches Err(e) ==> spec_decode_kingdom(j@) == Err::<RawKingdomV, WorldErrorV>(e@),
{
    let kingdom_id = match get_coerced(j, "kingdomId") {
        Ok(v) => v,
        Err(e) => return Err(e),
    };
    let kingdom_tag = match get_str(j, "kingdomTag") {
        Ok(v) => v,
        Err(e) => return Err(e),
    };
    let creation_time = match get_coerced(j, "creationTime") {
        Ok(v) => v,
        Err(e) => return Err(e),
    };
    let victory_points = match get_coerced(j, "victoryPoints") {
        Ok(v) => v,
        Err(e) => return Err(e),
    };
    Ok(RawKingdom { kingdom_id, kingdom_tag, creation_time, victory_points })
}

pub open spec fn spec_decode_kingdoms(s: Seq<JsonV>) -> Result<Seq<RawKingdomV>, WorldErrorV>
    decreases s.len(),
{
    if s.len() == 0 {
        Ok(Seq::empty())
    } else {
        match spec_decode_kingdoms(s.drop_last()) {
            Err(e) => Err(e),
            Ok(rest) => match spec_decode_kingdom(s.last()) {
                Err(e) => Err(e),
                Ok(k) => Ok(rest.push(k)),
            },
        }
    }
}

proof fn lemma_decode_kingdoms_err(s: Seq<JsonV>, m: int)
    requires
        0 <= m <= s.len(),
        spec_decode_kingdoms(s.take(m)) is Err,
    ensures
        spec_decode_kingdoms(s) == spec_decode_kingdoms(s.take(m)),
    decreases s.len() - m,
{
    if m < s.len() {
        assert(s.take(m + 1).drop_last() =~= s.take(m));
        lemma_decode_kingdoms_err(s, m + 1);
    } else {
        assert(s.take(m) =~= s);
    }
}

fn decode_kingdoms(arr: &Vec<Json>) -> (r: Result<Vec<RawKingdom>, WorldError>)
    ensures
        r matches Ok(ks) ==> spec_decode_kingdoms(json_arr_view(arr@)) == Ok::<
            Seq<RawKingdomV>,
            WorldErrorV,
        >(ks@.map(|i: int, k: RawKingdom| k@)),
        r matches Err(e) ==> spec_decode_kingdoms(json_arr_view(arr@)) == Err::<
            Seq<RawKingdomV>,
            WorldErrorV,
        >(e@),
{
    proof {
        lemma_json_arr_view_len(arr@);
    }
    let ghost full = json_arr_view(arr@);
    let mut out: Vec<RawKingdom> = Vec::new();
    proof {
        assert(out@.map(|k: int, x: RawKingdom| x@) =~= Seq::<RawKingdomV>::empty());
    }
    let n = arr.len();
    for i in 0..n
        invariant
            n == arr@.len(),
            full == json_arr_view(arr@),
            full.len() == n,
            forall|k: int| 0 <= k < n ==> full[k] == arr@[k]@,
            out@.len() == i,
            spec_decode_kingdoms(full.take(i as int)) == Ok::<Seq<RawKingdomV>, WorldErrorV>(
                out@.map(|k: int, x: RawKingdom| x@),
            ),
    {
        let ghost prev = out@;
        match decode_kingdom(&arr[i]) {
            Ok(k) => {
                proof {
                    assert(full.take(i + 1).drop_last() =~= full.take(i as int));
                    assert(full.take(i + 1).last() == full[i as int]);
                    assert(prev.push(k).map(|j: int, x: RawKingdom| x@) =~= prev.map(
                        |j: int, x: RawKingdom| x@,
                    ).push(k@));
                }
                out.push(k);
            },
            Err(e) => {
                proof {
                    assert(full.take(i + 1).drop_last() =~= full.take(i as int));
                    assert(full.take(i + 1).last() == full[i as int]);
                    lemma_decode_kingdoms_err(full, i + 1);
                }
                return Err(e);
            },
        }
    }
    proof {
        assert(full.take(n as int) =~= full);
    }
    Ok(out)
}

pub open spec fn spec_decode_cell(j: JsonV) -> Result<RawCellV, WorldErrorV> {
    match spec_get_coerced(j, "id"@) {
        Err(e) => Err(e),
        Ok(id) => match spec_get_coerced(j, "x"@) {
            Err(e) => Err(e),
            Ok(x) => match spec_get_coerced(j, "y"@) {
                Err(e) => Err(e),
                Ok(y) => match spec_get_str(j, "resType"@) {
                    Err(e) => Err(e),
                    Ok(res_type) => match spec_get_str(j, "oasis"@) {
                        Err(e) => Err(e),
                        Ok(oasis) => match spec_get_coerced(j, "landscape"@) {
                            Err(e) => Err(e),
                            Ok(landscape) => match spec_get_coerced(j, "kingdomId"@) {
                                Err(e) => Err(e),
                                Ok(kingdom_id) => Ok(
                                    RawCellV { id, x, y, res_type, oasis, landscape, kingdom_id },
                                ),
                            },
                        },
                    },
                },
            },
        },
    }
}

fn decode_cell(j: &Json) -> (r: Result<RawCell, WorldError>)
    ensures
        r matches Ok(c) ==> spec_decode_cell(j@) == Ok::<RawCellV, WorldErrorV>(c@),
        r matches Err(e) ==> spec_decode_cell(j@) == Err::<RawCellV, WorldErrorV>(e@),
{
    let id = match get_coerced(j, "id") {
        Ok(v) => v,
        Err(e) => return Err(e),
    };
    let x = match get_coerced(j, "x") {
        Ok(v) => v,
        Err(e) => return Err(e),
    };
    let y = match get_coerced(j, "y") {
        Ok(v) => v,
        Err(e) => return Err(e),
    };
    let res_type = match get_str(j, "resType") {
        Ok(v) => v,
        Err(e) => return Err(e),
    };
    let oasis = match get_str(j, "oasis") {
        Ok(v) => v,
        Err(e) => return Err(e),
    };
    let landscape = match get_coerced(j, "landscape") {
        Ok(v) => v,
        Err(e) => return Err(e),
    };
    let kingdom_id = match get_coerced(j, "kingdomId") {
        Ok(v) => v,
        Err(e) => return Err(e),
    };
    Ok(RawCell { id, x, y, res_type, oasis, landscape, kingdom_id })
}

pub open spec fn spec_decode_cells(s: Seq<JsonV>) -> Result<Seq<RawCellV>, WorldErrorV>
    decreases s.len(),
{
    if s.len() == 0 {
        Ok(Seq::empty())
    } else {
        match spec_decode_cells(s.drop_last()) {
            Err(e) => Err(e),
            Ok(rest) => match spec_decode_cell(s.last()) {
                Err(e) => Err(e),
                Ok(c) => Ok(rest.push(c)),
            },
        }
    }
}

proof fn lemma_decode_cells_err(s: Seq<JsonV>, m: int)
    requires
        0 <= m <= s.len(),
        spec_decode_cells(s.take(m)) is Err,
    ensures
        spec_decode_cells(s) == spec_decode_cells(s.take(m)),
    decreases s.len() - m,
{
    if m < s.len() {
        assert(s.take(m + 1).drop_last() =~= s.take(m));
        lemma_decode_cells_err(s, m + 1);
    } else {
        assert(s.take(m) =~= s);
    }
}

fn decode_cells(arr: &Vec<Json>) -> (r: Result<Vec<RawCell>, WorldError>)
    ensures
        r matches Ok(cs) ==> spec_decode_cells(json_arr_view(arr@)) == Ok::<
            Seq<RawCellV>,
            WorldErrorV,
        >(cs@.map(|i: int, c: RawCell| c@)),
        r matches Err(e) ==> spec_decode_cells(json_arr_view(arr@)) == Err::<
            Seq<RawCellV>,
            WorldErrorV,
        >(e@),
{
    proof {
        lemma_json_arr_view_len(arr@);
    }
    let ghost full = json_arr_view(arr@);
    let mut out: Vec<RawCell> = Vec::new();
    proof {
        assert(out@.map(|k: int, c: RawCell| c@) =~= Seq::<RawCellV>::empty());
    }
    let n = arr.len();
    for i in 0..n
        invariant
            n == arr@.len(),
            full == json_arr_view(arr@),
            full.len() == n,
            forall|k: int| 0 <= k < n ==> full[k] == arr@[k]@,
            out@.len() == i,
            spec_decode_cells(full.take(i as int)) == Ok::<Seq<RawCellV>, WorldErrorV>(
                out@.map(|k: int, c: RawCell| c@),
            ),
    {
        let ghost prev = out@;
        match decode_cell(&arr[i]) {
            Ok(c) => {
                proof {
                    assert(full.take(i + 1).drop_last() =~= full.take(i as int));
                    assert(full.take(i + 1).last() == full[i as int]);
                    assert(prev.push(c).map(|k: int, x: RawCell| x@) =~= prev.map(
                        |k: int, x: RawCell| x@,
                    ).push(c@));
                }
                out.push(c);
            },
            Err(e) => {
                proof {
                    assert(full.take(i + 1).drop_last() =~= full.take(i as int));
                    assert(full.take(i + 1).last() == full[i as int]);
                    lemma_decode_cells_err(full, i + 1);
                }
                return Err(e);
            },
        }
    }
    proof {
        assert(full.take(n as int) =~= full);
    }
    Ok(out)
}

/// The landscape legend arrives as an object whose keys are numeric strings.
pub open spec fn spec_decode_landscapes(o: Seq<(Seq<char>, JsonV)>) -> Result<
    Seq<(i64, Seq<char>)>,
    WorldErrorV,
>
    decreases o.len(),
{
    if o.len() == 0 {
        Ok(Seq::empty())
    } else {
        match spec_decode_landscapes(o.drop_last()) {
            Err(e) => Err(e),
            Ok(rest) => match spec_parse_i64(o.last().0) {
                Option::None => Err(WorldErrorV::WrongType("landscapes"@)),
                Option::Some(k) => match o.last().1 {
                    JsonV::Str(s) => Ok(rest.push((k, s))),
                    _ => Err(WorldErrorV::WrongType("landscapes"@)),
                },
            },
        }
    }
}

proof fn lemma_decode_landscapes_err(o: Seq<(Seq<char>, JsonV)>, m: int)
    requires
        0 <= m <= o.len(),
        spec_decode_landscapes(o.take(m)) is Err,
    ensures
        spec_decode_landscapes(o) == spec_decode_landscapes(o.take(m)),
    decreases o.len() - m,
{
    if m < o.len() {
        assert(o.take(m + 1).drop_last() =~= o.take(m));
        lemma_decode_landscapes_err(o, m + 1);
    } else {
        assert(o.take(m) =~= o);
    }
}

fn decode_landscapes(entries: &Vec<(String, Json)>) -> (r: Result<
    Vec<(i64, String)>,
    WorldError,
>)
    ensures
        r matches Ok(ls) ==> spec_decode_landscapes(json_obj_view(entries@)) == Ok::<
            Seq<(i64, Seq<char>)>,
            WorldErrorV,
        >(ls@.map(|i: int, l: (i64, String)| (l.0, l.1@))),
        r matches Err(e) ==> spec_decode_landscapes(json_obj_view(entries@)) == Err::<
            Seq<(i64, Seq<char>)>,
            WorldErrorV,
        >(e@),
{
    proof {
        lemma_json_obj_view_len(entries@);
    }
    let ghost full = json_obj_view(entries@);
    let mut out: Vec<(i64, String)> = Vec::new();
    proof {
        assert(out@.map(|k: int, l: (i64, String)| (l.0, l.1@)) =~= Seq::<(i64, Seq<char>)>::empty());
    }
    let n = entries.len();
    for i in 0..n
        invariant
            n == entries@.len(),
            full == json_obj_view(entries@),
            full.len() == n,
            forall|k: int|
                0 <= k < n ==> full[k] == (entries@[k].0@, entries@[k].1@),
            out@.len() == i,
            spec_decode_landscapes(full.take(i as int)) == Ok::<Seq<(i64, Seq<char>)>, WorldErrorV>(
                out@.map(|k: int, l: (i64, String)| (l.0, l.1@)),
            ),
    {
        let ghost prev = out@;
        proof {
            assert(full.take(i + 1).drop_last() =~= full.take(i as int));
            assert(full.take(i + 1).last() == full[i as int]);
        }
        let key = match parse_i64(entries[i].0.as_str()) {
            Some(k) => k,
            None => {
                proof {
                    lemma_decode_landscapes_err(full, i + 1);
                }
                return Err(WorldError::WrongType("landscapes".to_owned()));
            },
        };
        match &entries[i].1 {
            Json::Str(s) => {
                let pair = (key, s.clone());
                proof {
                    assert(prev.push(pair).map(|k: int, l: (i64, String)| (l.0, l.1@)) =~= prev.map(
                        |k: int, l: (i64, String)| (l.0, l.1@),
                    ).push((key, s@)));
                }
                out.push(pair);
            },
            _ => {
                proof {
                    lemma_decode_landscapes_err(full, i + 1);
                }
                return Err(WorldError::WrongType("landscapes".to_owned()));
            },
        }
    }
    proof {
        assert(full.take(n as int) =~= full);
    }
    Ok(out)
}

pub open spec fn spec_decode_map(j: JsonV) -> Result<RawMapV, WorldErrorV> {
    match spec_get_coerced(j, "radius"@) {
        Err(e) => Err(e),
        Ok(radius) => match spec_get_arr(j, "cells"@) {
            Err(e) => Err(e),
            Ok(carr) => match spec_decode_cells(carr) {
                Err(e) => Err(e),
                Ok(cells) => match spec_get_obj(j, "landscapes"@) {
                    Err(e) => Err(e),
                    Ok(lobj) => match spec_decode_landscapes(lobj) {
                        Err(e) => Err(e),
                        Ok(landscapes) => Ok(RawMapV { radius, cells, landscapes }),
                    },
                },
            },
        },
    }
}

fn decode_map(j: &Json) -> (r: Result<RawMap, WorldError>)
    ensures
        r matches Ok(m) ==> spec_decode_map(j@) == Ok::<RawMapV, WorldErrorV>(m@),
        r matches Err(e) ==> spec_decode_map(j@) == Err::<RawMapV, WorldErrorV>(e@),
{
    let radius = match get_coerced(j, "radius") {
        Ok(v) => v,
        Err(e) => return Err(e),
    };
    let carr = match get_arr(j, "cells") {
        Ok(v) => v,
        Err(e) => return Err(e),
    };
    let cells = match decode_cells(carr) {
        Ok(v) => v,
        Err(e) => return Err(e),
    };
    let lobj = match get_obj(j, "landscapes") {
        Ok(v) => v,
        Err(e) => return Err(e),
    };
    let landscapes = match decode_landscapes(lobj) {
        Ok(v) => v,
        Err(e) => return Err(e),
    };
    Ok(RawMap { radius, cells, landscapes })
}

pub open spec fn spec_decode_gameworld(j: JsonV) -> Result<RawGameWorldV, WorldErrorV> {
    match spec_get_str(j, "name"@) {
        Err(e) => Err(e),
        Ok(name) => match spec_get_int(j, "startTime"@) {
            Err(e) => Err(e),
            Ok(start_time) => match spec_get_int(j, "speed"@) {
                Err(e) => Err(e),
                Ok(speed) => match spec_get_int(j, "speedTroops"@) {
                    Err(e) => Err(e),
                    Ok(speed_troops) => match spec_get_int(j, "lastUpdateTime"@) {
                        Err(e) => Err(e),
                        Ok(last_update_time) => match spec_get_int(j, "date"@) {
                            Err(e) => Err(e),
                            Ok(date) => match spec_get_str(j, "version"@) {
                                Err(e) => Err(e),
                                Ok(version) => Ok(
                                    RawGameWorldV {
                                        name,
                                        start_time,
                                        speed,
                                        speed_troops,
                                        last_update_time,
                                        date,
                                        version,
                                    },
                                ),
                            },
                        },
                    },
                },
            },
        },
    }
}

fn decode_gameworld(j: &Json) -> (r: Result<RawGameWorld, WorldError>)
    ensures
        r matches Ok(g) ==> spec_decode_gameworld(j@) == Ok::<RawGameWorldV, WorldErrorV>(g@),
        r matches Err(e) ==> spec_decode_gameworld(j@) == Err::<RawGameWorldV, WorldErrorV>(e@),
{
    let name = match get_str(j, "name") {
        Ok(v) => v,
        Err(e) => return Err(e),
    };
    let start_time = match get_int(j, "startTime") {
        Ok(v) => v,
        Err(e) => return Err(e),
    };
    let speed = match get_int(j, "speed") {
        Ok(v) => v,
        Err(e) => return Err(e),
    };
    let speed_troops = match get_int(j, "speedTroops") {
        Ok(v) => v,
        Err(e) => return Err(e),
    };
    let last_update_time = match get_int(j, "lastUpdateTime") {
        Ok(v) => v,
        Err(e) => return Err(e),
    };
    let date = match get_int(j, "date") {
        Ok(v) => v,
        Err(e) => return Err(e),
    };
    let version = match get_str(j, "version") {
        Ok(v) => v,
        Err(e) => return Err(e),
    };
    Ok(
        RawGameWorld {
            name,
            start_time,
            speed,
            speed_troops,
            last_update_time,
            date,
            version,
        },
    )
}

pub open spec fn spec_decode_map_data(j: JsonV) -> Result<RawMapDataV, WorldErrorV> {
    match spec_field(j, "gameworld"@) {
        Option::None => Err(WorldErrorV::MissingField("gameworld"@)),
        Option::Some(g) => match spec_decode_gameworld(g) {
            Err(e) => Err(e),
            Ok(gameworld) => match spec_get_arr(j, "players"@) {
                Err(e) => Err(e),
                Ok(parr) => match spec_decode_players(parr) {
                    Err(e) => Err(e),
                    Ok(players) => match spec_get_arr(j, "kingdoms"@) {
                        Err(e) => Err(e),
                        Ok(karr) => match spec_decode_kingdoms(karr) {
                            Err(e) => Err(e),
                            Ok(kingdoms) => match spec_field(j, "map"@) {
                                Option::None => Err(WorldErrorV::MissingField("map"@)),
                                Option::Some(m) => match spec_decode_map(m) {
                                    Err(e) => Err(e),
                                    Ok(map) => Ok(
                                        RawMapDataV { gameworld, players, kingdoms, map },
                                    ),
                                },
                            },
                        },
                    },
                },
            },
        },
    }
}

fn decode_map_data(j: &Json) -> (r: Result<RawMapData, WorldError>)
    ensures
        r matches Ok(d) ==> spec_decode_map_data(j@) == Ok::<RawMapDataV, WorldErrorV>(d@),
        r matches Err(e) ==> spec_decode_map_data(j@) == Err::<RawMapDataV, WorldErrorV>(e@),
{
    let g = match get_field(j, "gameworld") {
        Some(v) => v,
        None => return Err(WorldError::MissingField("gameworld".to_owned())),
    };
    let gameworld = match decode_gameworld(g) {
        Ok(v) => v,
        Err(e) => return Err(e),
    };
    let parr = match get_arr(j, "players") {
        Ok(v) => v,
        Err(e) => return Err(e),
    };
    let players = match decode_players(parr) {
        Ok(v) => v,
        Err(e) => return Err(e),
    };
    let karr = match get_arr(j, "kingdoms") {
        Ok(v) => v,
        Err(e) => return Err(e),
    };
    let kingdoms = match decode_kingdoms(karr) {
        Ok(v) => v,
        Err(e) => return Err(e),
    };
    let m = match get_field(j, "map") {
        Some(v) => v,
        None => return Err(WorldError::MissingField("map".to_owned())),
    };
    let map = match decode_map(m) {
        Ok(v) => v,
        Err(e) => return Err(e),
    };
    Ok(RawMapData { gameworld, players, kingdoms, map })
}

/// The decoded record inside a snapshot's top-level `response` wrapper.
pub open spec fn spec_decode_response(j: JsonV) -> Result<RawMapDataV, WorldErrorV> {
    match spec_field(j, "response"@) {
        Option::None => Err(WorldErrorV::MissingField("response"@)),
        Option::Some(inner) => spec_decode_map_data(inner),
    }
}

fn decode_response(j: &Json) -> (r: Result<RawResponse, WorldError>)
    ensures
        r matches Ok(d) ==> spec_decode_response(j@) == Ok::<RawMapDataV, WorldErrorV>(d@.response),
        r matches Err(e) ==> spec_decode_response(j@) == Err::<RawMapDataV, WorldErrorV>(e@),
{
    let inner = match get_field(j, "response") {
        Some(v) => v,
        None => return Err(WorldError::MissingField("response".to_owned())),
    };
    match decode_map_data(inner) {
        Ok(d) => Ok(RawResponse { response: d }),
        Err(e) => Err(e),
    }
}

/// Decode a raw snapshot text into the structured record, coercing the
/// number-or-string fields, or fail on the first structural mismatch.
pub fn parse_raw_map_data(s: &str) -> (r: Result<RawMapData, WorldError>)
    ensures
        r matches Ok(d) ==> json_of(s@) matches Some(jv) && spec_decode_response(jv) == Ok::<
            RawMapDataV,
            WorldErrorV,
        >(d@),
        r matches Err(e) ==> match json_of(s@) {
            Option::Some(jv) => spec_decode_response(jv) == Err::<RawMapDataV, WorldErrorV>(e@),
            Option::None => e@ matches WorldErrorV::Parse(_),
        },
{
    let j = match parse_json(s) {
        Ok(j) => j,
        Err(m) => return Err(WorldError::Parse(m)),
    };
    match decode_response(&j) {
        Ok(resp) => Ok(resp.response),
        Err(e) => Err(e),
    }
}

} // verus!

use vstd::prelude::*;

verus! {

/// An RGB triple as the rendering collaborator consumes it.
#[derive(Clone, Copy, Debug, PartialEq, Eq, Structural)]
pub struct Rgb {
    pub r: u8,
    pub g: u8,
    pub b: u8,
}

/// The tool's configuration: an API key and the kingdom grouping.
pub struct TSMConfig {
    pub key: String,
    pub kingdoms: KingdomConfig,
}

/// Kingdom names grouped by diplomatic standing.
pub struct KingdomConfig {
    pub us: String,
    pub allies: Vec<String>,
    pub friends: Vec<String>,
    pub hostiles: Vec<String>,
    pub ennemies: Vec<String>,
    pub neutrals: Vec<String>,
}

pub struct KingdomConfigV {
    pub us: Seq<char>,
    pub allies: Seq<Seq<char>>,
    pub friends: Seq<Seq<char>>,
    pub hostiles: Seq<Seq<char>>,
    pub ennemies: Seq<Seq<char>>,
    pub neutrals: Seq<Seq<char>>,
}

impl View for KingdomConfig {
    type V = KingdomConfigV;

    open spec fn view(&self) -> KingdomConfigV {
        KingdomConfigV {
            us: self.us@,
            allies: self.allies@.map(|i: int, s: String| s@),
            friends: self.friends@.map(|i: int, s: String| s@),
            hostiles: self.hostiles@.map(|i: int, s: String| s@),
            ennemies: self.ennemies@.map(|i: int, s: String| s@),
            neutrals: self.neutrals@.map(|i: int, s: String| s@),
        }
    }
}

pub struct TSMConfigV {
    pub key: Seq<char>,
    pub kingdoms: KingdomConfigV,
}

impl View for TSMConfig {
    type V = TSMConfigV;

    open spec fn view(&self) -> TSMConfigV {
        TSMConfigV { key: self.key@, kingdoms: self.kingdoms@ }
    }
}

pub open spec fn our_color() -> Rgb {
    Rgb { r: 40, g: 46, b: 8 }
}

pub open spec fn ally_color() -> Rgb {
    Rgb { r: 16, g: 82, b: 106 }
}

pub open spec fn friend_color() -> Rgb {
    Rgb { r: 28, g: 153, b: 197 }
}

pub open spec fn neutral_color() -> Rgb {
    Rgb { r: 125, g: 127, b: 116 }
}

pub open spec fn enemy_color() -> Rgb {
    Rgb { r: 160, g: 18, b: 16 }
}

pub open spec fn hostile_color() -> Rgb {
    Rgb { r: 242, g: 147, b: 21 }
}

pub open spec fn spec_group(names: Seq<Seq<char>>, c: Rgb) -> Seq<(Seq<char>, Rgb)> {
    names.map(|i: int, n: Seq<char>| (n, c))
}

/// The display plan: the own kingdom first, then each group in a fixed order,
/// every name paired with its group's color.
pub open spec fn spec_color_plan(k: KingdomConfigV) -> Seq<(Seq<char>, Rgb)> {
    seq![(k.us, our_color())] + spec_group(k.allies, ally_color()) + spec_group(
        k.friends,
        friend_color(),
    ) + spec_group(k.hostiles, hostile_color()) + spec_group(k.ennemies, enemy_color())
        + spec_group(k.neutrals, neutral_color())
}

fn push_group<'a>(out: &mut Vec<(&'a str, Rgb)>, names: &'a Vec<String>, c: Rgb)
    ensures
        final(out)@.map(|i: int, p: (&str, Rgb)| (p.0@, p.1)) == old(out)@.map(
            |i: int, p: (&str, Rgb)| (p.0@, p.1),
        ) + spec_group(names@.map(|i: int, s: String| s@), c),
{
    let ghost base = out@.map(|i: int, p: (&str, Rgb)| (p.0@, p.1));
    let ghost group = spec_group(names@.map(|i: int, s: String| s@), c);
    let n = names.len();
    proof {
        assert(out@.map(|i: int, p: (&str, Rgb)| (p.0@, p.1)) =~= base + group.take(0));
    }
    for j in 0..n
        invariant
            n == names@.len(),
            group == spec_group(names@.map(|i: int, s: String| s@), c),
            group.len() == n,
            forall|t: int| 0 <= t < n ==> group[t] == (names@[t]@, c),
            out@.map(|i: int, p: (&str, Rgb)| (p.0@, p.1)) == base + group.take(j as int),
    {
        let s = names[j].as_str();
        let ghost prev = out@;
        out.push((s, c));
        proof {
            assert(s@ == names@[j as int]@);
            assert(out@ == prev.push((s, c)));
            assert(out@.map(|i: int, p: (&str, Rgb)| (p.0@, p.1)) =~= prev.map(
                |i: int, p: (&str, Rgb)| (p.0@, p.1),
            ).push((s@, c)));
            assert(group.take(j + 1) =~= group.take(j as int).push(group[j as int]));
            assert(out@.map(|i: int, p: (&str, Rgb)| (p.0@, p.1)) =~= base + group.take(j + 1));
        }
    }
    proof {
        assert(group.take(n as int) =~= group);
    }
}

/// Pair every configured kingdom name with its group's color, the own kingdom
/// first, then allies, friends, hostiles, enemies and neutrals in that order.
pub fn kingdom_color_vector<'a>(kingdoms: &'a KingdomConfig) -> (r: Vec<(&'a str, Rgb)>)
    ensures
        r@.map(|i: int, p: (&str, Rgb)| (p.0@, p.1)) == spec_color_plan(kingdoms@),
{
    let mut v: Vec<(&'a str, Rgb)> = Vec::new();
    v.push((kingdoms.us.as_str(), Rgb { r: 40, g: 46, b: 8 }));
    proof {
        assert(v@.map(|i: int, p: (&str, Rgb)| (p.0@, p.1)) =~= seq![(kingdoms@.us, our_color())]);
    }
    push_group(&mut v, &kingdoms.allies, Rgb { r: 16, g: 82, b: 106 });
    push_group(&mut v, &kingdoms.friends, Rgb { r: 28, g: 153, b: 197 });
    push_group(&mut v, &kingdoms.hostiles, Rgb { r: 242, g: 147, b: 21 });
    push_group(&mut v, &kingdoms.ennemies, Rgb { r: 160, g: 18, b: 16 });
    push_group(&mut v, &kingdoms.neutrals, Rgb { r: 125, g: 127, b: 116 });
    proof {
        assert(v@.map(|i: int, p: (&str, Rgb)| (p.0@, p.1)) =~= spec_color_plan(kingdoms@));
    }
    v
}

} // verus!
